//! Integer building blocks for the fixed-point arithmetic of this crate:
//! division that rounds toward zero and the integer square root.

use vstd::prelude::*;

verus! {

/// The absolute value of `n`.
pub open spec fn magnitude(n: int) -> int {
    if n < 0 {
        -n
    } else {
        n
    }
}

/// The quotient `n / d` rounded toward zero, for a divisor other than zero.
///
/// Unlike `/` on `int`, which rounds toward minus infinity for a positive
/// divisor, this is symmetric: `trunc_div(-n, d) == -trunc_div(n, d)`.
pub open spec fn trunc_div(n: int, d: int) -> int
    recommends
        d != 0,
{
    if (n < 0) == (d < 0) {
        magnitude(n) / magnitude(d)
    } else {
        -(magnitude(n) / magnitude(d))
    }
}

/// `r` is the largest integer whose square does not exceed `n`.
pub open spec fn is_floor_sqrt(n: int, r: int) -> bool {
    &&& 0 <= r
    &&& r * r <= n
    &&& n < (r + 1) * (r + 1)
}

/// The integer square root of `n`: the largest `r` with `r * r <= n`.
pub open spec fn floor_sqrt(n: int) -> int
    recommends
        n >= 0,
{
    choose|r: int| is_floor_sqrt(n, r)
}

/// The quotient of two non-negative numbers brackets the dividend.
pub proof fn lemma_div_brackets(n: int, d: int)
    requires
        0 <= n,
        0 < d,
    ensures
        0 <= n / d,
        (n / d) * d <= n,
        n < (n / d) * d + d,
{
    vstd::arithmetic::div_mod::lemma_fundamental_div_mod(n, d);
    vstd::arithmetic::div_mod::lemma_mod_bound(n, d);
    vstd::arithmetic::div_mod::lemma_div_pos_is_pos(n, d);
    assert((n / d) * d == d * (n / d)) by (nonlinear_arith);
}

/// A quotient is pinned down by the bracket it falls in.
pub proof fn lemma_div_from_brackets(n: int, d: int, q: int)
    requires
        0 < d,
        q * d <= n,
        n < q * d + d,
    ensures
        n / d == q,
{
    vstd::arithmetic::div_mod::lemma_fundamental_div_mod(n, d);
    vstd::arithmetic::div_mod::lemma_mod_bound(n, d);
    let p = n / d;
    assert(p * d == d * p) by (nonlinear_arith);
    assert(p == q) by (nonlinear_arith)
        requires
            0 < d,
            q * d <= n,
            n < q * d + d,
            p * d <= n,
            n < p * d + d,
    ;
}

/// What `trunc_div` returns, by magnitude and by sign.
pub proof fn lemma_trunc_div(n: int, d: int)
    requires
        d != 0,
    ensures
        magnitude(trunc_div(n, d)) == magnitude(n) / magnitude(d),
        magnitude(trunc_div(n, d)) * magnitude(d) <= magnitude(n),
        magnitude(n) < magnitude(trunc_div(n, d)) * magnitude(d) + magnitude(d),
        magnitude(trunc_div(n, d)) <= magnitude(n),
        (n < 0) == (d < 0) ==> trunc_div(n, d) >= 0,
        (n < 0) != (d < 0) ==> trunc_div(n, d) <= 0,
        n == 0 ==> trunc_div(n, d) == 0,
{
    let a = magnitude(n);
    let b = magnitude(d);
    lemma_div_brackets(a, b);
    let q = a / b;
    assert(q <= a) by (nonlinear_arith)
        requires
            0 <= q,
            1 <= b,
            q * b <= a,
    ;
}

/// A multiple of the divisor divides exactly.
pub proof fn lemma_trunc_div_exact(k: int, d: int)
    requires
        d != 0,
    ensures
        trunc_div(k * d, d) == k,
{
    let a = magnitude(k);
    let b = magnitude(d);
    assert(magnitude(k * d) == a * b) by (nonlinear_arith)
        requires
            a == magnitude(k),
            b == magnitude(d),
    ;
    lemma_div_from_brackets(a * b, b, a);
    if k > 0 {
        assert((k * d < 0) == (d < 0)) by (nonlinear_arith)
            requires
                k > 0,
                d != 0,
        ;
    } else if k < 0 {
        assert((k * d < 0) != (d < 0)) by (nonlinear_arith)
            requires
                k < 0,
                d != 0,
        ;
    } else {
        assert(k * d == 0);
    }
}

/// A dividend of magnitude at most `bound * |d|` gives a quotient of
/// magnitude at most `bound`.
pub proof fn lemma_trunc_div_bound(n: int, d: int, bound: int)
    requires
        d != 0,
        0 <= bound,
        magnitude(n) <= bound * magnitude(d),
    ensures
        magnitude(trunc_div(n, d)) <= bound,
{
    lemma_trunc_div(n, d);
    let q = magnitude(trunc_div(n, d));
    let b = magnitude(d);
    assert(q <= bound) by (nonlinear_arith)
        requires
            0 < b,
            0 <= q,
            q * b <= bound * b,
    ;
}

/// Squaring is strictly monotonic on the non-negative integers.
pub proof fn lemma_square_monotonic(a: int, b: int)
    requires
        0 <= a,
        a < b,
    ensures
        a * a < b * b,
{
    assert(a * a < b * b) by (nonlinear_arith)
        requires
            0 <= a,
            a < b,
    ;
}

/// At most one integer satisfies `is_floor_sqrt` for a given `n`, so any
/// that does is `floor_sqrt(n)`.
pub proof fn lemma_floor_sqrt_unique(n: int, r: int)
    requires
        is_floor_sqrt(n, r),
    ensures
        floor_sqrt(n) == r,
{
    let s = floor_sqrt(n);
    assert(is_floor_sqrt(n, s));
    if s < r {
        lemma_square_monotonic(s, r);
        if s + 1 < r {
            lemma_square_monotonic(s + 1, r);
        }
    } else if r < s {
        lemma_square_monotonic(r, s);
        if r + 1 < s {
            lemma_square_monotonic(r + 1, s);
        }
    }
}

/// Every non-negative integer has an integer square root.
pub proof fn lemma_floor_sqrt(n: int)
    requires
        0 <= n,
    ensures
        is_floor_sqrt(n, floor_sqrt(n)),
    decreases n,
{
    if n == 0 {
        assert(is_floor_sqrt(0, 0));
    } else {
        lemma_floor_sqrt(n - 1);
        let r = floor_sqrt(n - 1);
        if n < (r + 1) * (r + 1) {
            assert(is_floor_sqrt(n, r));
        } else {
            lemma_square_monotonic(r + 1, r + 2);
            assert(is_floor_sqrt(n, r + 1));
        }
    }
}

/// A non-negative integer whose square does not exceed `n` is at most
/// `floor_sqrt(n)`.
pub proof fn lemma_floor_sqrt_lower(n: int, lo: int)
    requires
        0 <= lo,
        lo * lo <= n,
    ensures
        lo <= floor_sqrt(n),
{
    assert(0 <= lo * lo) by (nonlinear_arith);
    lemma_floor_sqrt(n);
    let r = floor_sqrt(n);
    if r + 1 < lo {
        lemma_square_monotonic(r + 1, lo);
    }
}

/// A non-negative integer whose square exceeds `n` is above `floor_sqrt(n)`.
pub proof fn lemma_floor_sqrt_upper(n: int, hi: int)
    requires
        0 <= n,
        0 <= hi,
        n < hi * hi,
    ensures
        floor_sqrt(n) < hi,
{
    lemma_floor_sqrt(n);
    let r = floor_sqrt(n);
    if hi < r {
        lemma_square_monotonic(hi, r);
    }
}

/// A quotient stays the same when dividend and divisor are multiplied by the
/// same positive number.
pub proof fn lemma_div_of_multiples(num: int, den: int, k: int)
    requires
        0 <= num,
        0 < den,
        0 < k,
    ensures
        (k * num) / (k * den) == num / den,
{
    lemma_div_brackets(num, den);
    let q = num / den;
    assert(0 < k * den && q * (k * den) <= k * num && k * num < q * (k * den) + k * den)
        by (nonlinear_arith)
        requires
            q * den <= num,
            num < q * den + den,
            0 < den,
            0 < k,
    ;
    lemma_div_from_brackets(k * num, k * den, q);
}

/// The integer square root of a quotient `num / den` is the largest `t`
/// with `t * t * den <= num`.
pub proof fn lemma_sqrt_of_quotient(num: int, den: int)
    requires
        0 <= num,
        0 < den,
    ensures
        0 <= floor_sqrt(num / den),
        (floor_sqrt(num / den) * floor_sqrt(num / den)) * den <= num,
        num < ((floor_sqrt(num / den) + 1) * (floor_sqrt(num / den) + 1)) * den,
{
    let q = num / den;
    lemma_div_brackets(num, den);
    lemma_floor_sqrt(q);
    let t = floor_sqrt(q);
    assert((t * t) * den <= q * den) by (nonlinear_arith)
        requires
            t * t <= q,
            0 < den,
    ;
    assert(q * den + den <= ((t + 1) * (t + 1)) * den) by (nonlinear_arith)
        requires
            q + 1 <= (t + 1) * (t + 1),
            0 < den,
    ;
}

/// Any `t` whose square times `den` does not exceed `num` is at most the
/// integer square root of `num / den`.
pub proof fn lemma_sqrt_of_quotient_lower(num: int, den: int, t: int)
    requires
        0 < den,
        0 <= t,
        (t * t) * den <= num,
    ensures
        t <= floor_sqrt(num / den),
{
    assert(0 <= t * t) by (nonlinear_arith);
    assert(0 <= (t * t) * den) by (nonlinear_arith)
        requires
            0 <= t * t,
            0 < den,
    ;
    lemma_div_brackets(num, den);
    let q = num / den;
    assert(t * t <= q) by (nonlinear_arith)
        requires
            (t * t) * den <= num,
            num < q * den + den,
            0 < den,
    ;
    lemma_floor_sqrt_lower(q, t);
}

/// Any `t` whose square times `den` exceeds `num` is above the integer
/// square root of `num / den`.
pub proof fn lemma_sqrt_of_quotient_upper(num: int, den: int, t: int)
    requires
        0 <= num,
        0 < den,
        0 <= t,
        num < (t * t) * den,
    ensures
        floor_sqrt(num / den) < t,
{
    lemma_div_brackets(num, den);
    let q = num / den;
    assert(q < t * t) by (nonlinear_arith)
        requires
            q * den <= num,
            num < (t * t) * den,
            0 < den,
    ;
    lemma_floor_sqrt_upper(q, t);
}

/// Two to the power 64: numbers are multiplied in halves of this weight.
pub const HALF_WEIGHT: u128 = 0x1_0000_0000_0000_0000;

/// Two to the power 128: the weight of the high part of a wide product.
pub open spec fn high_weight() -> int {
    HALF_WEIGHT * HALF_WEIGHT
}

/// The product `a * b`, which can take up to 256 bits, in two parts: the
/// product is the first part times two to the power 128, plus the second.
pub fn wide_product(a: u128, b: u128) -> (parts: (u128, u128))
    ensures
        parts.0 * high_weight() + parts.1 == a * b,
{
    let k: u128 = HALF_WEIGHT;
    let a1: u128 = a / k;
    let a0: u128 = a % k;
    let b1: u128 = b / k;
    let b0: u128 = b % k;
    assert(a0 * b0 <= 0xffff_ffff_ffff_ffff * 0xffff_ffff_ffff_ffff && a0 * b1
        <= 0xffff_ffff_ffff_ffff * 0xffff_ffff_ffff_ffff && a1 * b0 <= 0xffff_ffff_ffff_ffff
        * 0xffff_ffff_ffff_ffff && a1 * b1 <= 0xffff_ffff_ffff_ffff * 0xffff_ffff_ffff_ffff)
        by (nonlinear_arith)
        requires
            0 <= a0 <= 0xffff_ffff_ffff_ffff,
            0 <= a1 <= 0xffff_ffff_ffff_ffff,
            0 <= b0 <= 0xffff_ffff_ffff_ffff,
            0 <= b1 <= 0xffff_ffff_ffff_ffff,
    ;
    let ll: u128 = a0 * b0;
    let lh: u128 = a0 * b1;
    let hl: u128 = a1 * b0;
    let hh: u128 = a1 * b1;
    // The middle column, with the carry of the low one.
    let mid: u128 = ll / k + lh % k + hl % k;
    let lo: u128 = (mid % k) * k + ll % k;
    proof {
        let top = hh + lh / k + hl / k + mid / k;
        let kk = high_weight();
        assert(a * b == (hh * k + lh + hl) * k + ll) by (nonlinear_arith)
            requires
                a == a1 * k + a0,
                b == b1 * k + b0,
                ll == a0 * b0,
                lh == a0 * b1,
                hl == a1 * b0,
                hh == a1 * b1,
        ;
        assert(top * kk + lo == (hh * k + lh + hl) * k + ll) by (nonlinear_arith)
            requires
                top == hh + lh / k + hl / k + mid / k,
                kk == k * k,
                lo == (mid % k) * k + ll % k,
                mid == ll / k + lh % k + hl % k,
                mid == (mid / k) * k + mid % k,
                ll == (ll / k) * k + ll % k,
                lh == (lh / k) * k + lh % k,
                hl == (hl / k) * k + hl % k,
        ;
        assert(a * b < kk * 1 + (kk - 1) * kk) by (nonlinear_arith)
            requires
                0 <= a < kk,
                0 <= b < kk,
                kk == 0x1_0000_0000_0000_0000_0000_0000_0000_0000,
        ;
        assert(top < kk) by (nonlinear_arith)
            requires
                top * kk + lo == a * b,
                0 <= lo,
                a * b < kk * 1 + (kk - 1) * kk,
                0 < kk,
        ;
    }
    let hi: u128 = hh + lh / k + hl / k + mid / k;
    (hi, lo)
}

/// Whether `a * n <= b * m`, decided without overflow.
pub fn product_le(a: u128, n: u128, b: u128, m: u128) -> (le: bool)
    ensures
        le == (a * n <= b * m),
{
    let left = wide_product(a, n);
    let right = wide_product(b, m);
    proof {
        let kk = high_weight();
        assert(kk == 0x1_0000_0000_0000_0000_0000_0000_0000_0000);
        assert(left.0 < right.0 ==> left.0 * kk + left.1 < right.0 * kk + right.1)
            by (nonlinear_arith)
            requires
                0 <= left.1 < kk,
                0 <= right.1,
        ;
        assert(right.0 < left.0 ==> right.0 * kk + right.1 < left.0 * kk + left.1)
            by (nonlinear_arith)
            requires
                0 <= right.1 < kk,
                0 <= left.1,
        ;
    }
    left.0 < right.0 || (left.0 == right.0 && left.1 <= right.1)
}

/// Divides rounding toward zero. The one quotient that does not fit, the
/// lowest number divided by minus one, is left out.
pub fn div_toward_zero(n: i128, d: i128) -> (q: i128)
    requires
        d != 0,
        !(n == i128::MIN && d == -1),
    ensures
        q == trunc_div(n as int, d as int),
{
    proof {
        lemma_trunc_div(n as int, d as int);
    }
    if d > 0 {
        n / d
    } else if d == i128::MIN {
        if n == i128::MIN {
            proof {
                lemma_div_from_brackets(magnitude(n as int), magnitude(d as int), 1);
            }
            1
        } else {
            proof {
                lemma_div_from_brackets(magnitude(n as int), magnitude(d as int), 0);
            }
            0
        }
    } else {
        let back: i128 = n / (-d);
        proof {
            lemma_trunc_div(n as int, -(d as int));
            let m = magnitude(back as int);
            let e = magnitude(d as int);
            if d < -1 {
                assert(m < 0x8000_0000_0000_0000_0000_0000_0000_0000) by (nonlinear_arith)
                    requires
                        0 <= m,
                        2 <= e,
                        m * e <= 0x8000_0000_0000_0000_0000_0000_0000_0000,
                ;
            }
        }
        -back
    }
}

/// Computes the integer square root by bisection.
pub fn isqrt(n: u128) -> (r: u64)
    ensures
        r == floor_sqrt(n as int),
{
    let mut lo: u128 = 0;
    let mut hi: u128 = 0x1_0000_0000_0000_0000;
    assert(n < hi * hi) by (nonlinear_arith)
        requires
            hi == 0x1_0000_0000_0000_0000,
            n <= u128::MAX,
    ;
    while hi - lo > 1
        invariant
            lo < hi <= 0x1_0000_0000_0000_0000,
            lo * lo <= n,
            n < hi * hi,
        decreases hi - lo,
    {
        let mid: u128 = lo + (hi - lo) / 2;
        assert(mid * mid <= u128::MAX) by (nonlinear_arith)
            requires
                mid <= 0xffff_ffff_ffff_ffff,
        ;
        if mid * mid <= n {
            lo = mid;
        } else {
            hi = mid;
        }
    }
    proof {
        lemma_floor_sqrt_unique(n as int, lo as int);
    }
    lo as u64
}

} // verus!
