//! Decimal fixed-point numbers with fifteen fractional digits.
//!
//! A [`Scalar`] stands for the rational number `raw / SCALE`. Sums and
//! differences are exact; products and quotients are rounded toward zero to
//! the nearest representable value. Every operation states the value it
//! returns exactly and asks, as its precondition, that this value be
//! representable.

use vstd::prelude::*;
use crate::arith::{
    div_toward_zero, lemma_div_from_brackets, lemma_trunc_div, lemma_trunc_div_exact, magnitude,
    trunc_div,
};

verus! {

/// The number of raw units that make up one: ten to the power fifteen.
pub const SCALE: i64 = 1_000_000_000_000_000;

/// A fixed-point number: `raw` counts units of ten to the power minus
/// fifteen. The numbers from about -9223 to 9223 are in reach.
#[derive(Clone, Copy, Debug, PartialEq, Eq, Structural)]
pub struct Scalar {
    pub raw: i64,
}

/// Whether `v` raw units fit the representation.
pub open spec fn representable(v: int) -> bool {
    i64::MIN <= v <= i64::MAX
}

impl Scalar {
    /// The scalar of `v` raw units.
    pub open spec fn of_raw(v: int) -> Scalar
        recommends
            representable(v),
    {
        Scalar { raw: v as i64 }
    }

    /// The scalar that stands for the whole number `n`.
    pub open spec fn spec_from_int(n: int) -> Scalar
        recommends
            representable(n * SCALE),
    {
        Scalar::of_raw(n * SCALE)
    }

    /// The whole part of the number, its fraction dropped.
    pub open spec fn spec_trunc(self) -> int {
        trunc_div(self.raw as int, SCALE as int)
    }

    /// The raw units of the ratio `n / d` of two whole numbers, rounded
    /// toward zero.
    pub open spec fn ratio_raw(n: u32, d: u32) -> int
        recommends
            d != 0,
    {
        trunc_div(n * SCALE, d as int)
    }

    /// The scalar that stands for `n / d`, rounded toward zero.
    pub open spec fn spec_ratio(n: u32, d: u32) -> Scalar
        recommends
            d != 0,
            representable(Scalar::ratio_raw(n, d)),
    {
        Scalar::of_raw(Scalar::ratio_raw(n, d))
    }

    /// Whether `n` times the scalar is representable.
    pub open spec fn can_mul_int(self, n: u32) -> bool {
        representable(self.raw * n)
    }

    /// The scalar taken `n` times, exactly.
    pub open spec fn spec_mul_int(self, n: u32) -> Scalar
        recommends
            self.can_mul_int(n),
    {
        Scalar::of_raw(self.raw * n)
    }

    /// The scalar divided by the whole number `n`, which is not zero,
    /// rounded toward zero.
    pub open spec fn spec_div_int(self, n: u32) -> Scalar
        recommends
            n != 0,
    {
        Scalar::of_raw(trunc_div(self.raw as int, n as int))
    }

    /// Whether the sum is representable.
    pub open spec fn can_add(self, rhs: Scalar) -> bool {
        representable(self.raw + rhs.raw)
    }

    /// The exact sum.
    pub open spec fn spec_add(self, rhs: Scalar) -> Scalar
        recommends
            self.can_add(rhs),
    {
        Scalar::of_raw(self.raw + rhs.raw)
    }

    /// Whether the difference is representable.
    pub open spec fn can_sub(self, rhs: Scalar) -> bool {
        representable(self.raw - rhs.raw)
    }

    /// The exact difference.
    pub open spec fn spec_sub(self, rhs: Scalar) -> Scalar
        recommends
            self.can_sub(rhs),
    {
        Scalar::of_raw(self.raw - rhs.raw)
    }

    /// Whether the negation is representable: all but the lowest value.
    pub open spec fn can_neg(self) -> bool {
        representable(-self.raw)
    }

    /// The exact negation.
    pub open spec fn spec_neg(self) -> Scalar
        recommends
            self.can_neg(),
    {
        Scalar::of_raw(-self.raw)
    }

    /// The raw units of the product: the exact product rounded toward zero.
    pub open spec fn mul_raw(self, rhs: Scalar) -> int {
        trunc_div(self.raw * rhs.raw, SCALE as int)
    }

    /// Whether the rounded product is representable.
    pub open spec fn can_mul(self, rhs: Scalar) -> bool {
        representable(self.mul_raw(rhs))
    }

    /// The product, rounded toward zero.
    pub open spec fn spec_mul(self, rhs: Scalar) -> Scalar
        recommends
            self.can_mul(rhs),
    {
        Scalar::of_raw(self.mul_raw(rhs))
    }

    /// The raw units of `self * t + addend`: the product rounded toward
    /// zero, the sum exact.
    pub open spec fn mul_add_raw(self, t: Scalar, addend: Scalar) -> int {
        addend.raw + self.mul_raw(t)
    }

    /// Whether `self * t + addend` is representable. The product alone need
    /// not be.
    pub open spec fn can_mul_add(self, t: Scalar, addend: Scalar) -> bool {
        representable(self.mul_add_raw(t, addend))
    }

    /// The scalar `self * t + addend`.
    pub open spec fn spec_mul_add(self, t: Scalar, addend: Scalar) -> Scalar
        recommends
            self.can_mul_add(t, addend),
    {
        Scalar::of_raw(self.mul_add_raw(t, addend))
    }

    /// The raw units of the quotient: the exact quotient rounded toward zero.
    pub open spec fn div_raw(self, rhs: Scalar) -> int
        recommends
            rhs.raw != 0,
    {
        trunc_div(self.raw * SCALE, rhs.raw as int)
    }

    /// Whether the divisor is not zero and the rounded quotient is
    /// representable.
    pub open spec fn can_div(self, rhs: Scalar) -> bool {
        rhs.raw != 0 && representable(self.div_raw(rhs))
    }

    /// The quotient, rounded toward zero.
    pub open spec fn spec_div(self, rhs: Scalar) -> Scalar
        recommends
            self.can_div(rhs),
    {
        Scalar::of_raw(self.div_raw(rhs))
    }

    /// Makes the scalar of `raw` raw units.
    pub fn from_raw(raw: i64) -> (s: Scalar)
        ensures
            s.raw == raw,
    {
        Scalar { raw }
    }

    /// Makes the scalar that stands for the whole number `n`.
    pub fn from_int(n: i32) -> (s: Scalar)
        requires
            representable(n * SCALE),
        ensures
            s == Scalar::spec_from_int(n as int),
            s.raw == n * SCALE,
    {
        let wide: i64 = n as i64;
        Scalar { raw: wide * SCALE }
    }

    /// Makes the scalar that stands for `n / d`, rounded toward zero.
    pub fn ratio(n: u32, d: u32) -> (s: Scalar)
        requires
            d != 0,
            representable(Scalar::ratio_raw(n, d)),
        ensures
            s == Scalar::spec_ratio(n, d),
    {
        let q: i128 = Scalar::wide_ratio(n, d);
        Scalar { raw: q as i64 }
    }

    /// Makes the scalar that stands for `n / d`, where it is representable.
    pub fn checked_ratio(n: u32, d: u32) -> (s: Option<Scalar>)
        requires
            d != 0,
        ensures
            s == (if representable(Scalar::ratio_raw(n, d)) {
                Some(Scalar::spec_ratio(n, d))
            } else {
                None
            }),
    {
        let q: i128 = Scalar::wide_ratio(n, d);
        if q <= i64::MAX as i128 {
            Some(Scalar { raw: q as i64 })
        } else {
            None
        }
    }

    /// The raw units of `n / d`, in a type wide enough for any of them.
    fn wide_ratio(n: u32, d: u32) -> (q: i128)
        requires
            d != 0,
        ensures
            q == Scalar::ratio_raw(n, d),
            0 <= q,
    {
        let wide: i128 = n as i128;
        assert(0 <= wide * SCALE <= 0x1_0000_0000 * SCALE) by (nonlinear_arith)
            requires
                0 <= wide <= 0x1_0000_0000,
        ;
        proof {
            lemma_trunc_div(n * SCALE, d as int);
        }
        div_toward_zero(wide * (SCALE as i128), d as i128)
    }

    /// Drops the fraction, rounding toward zero.
    pub fn trunc(self) -> (n: i64)
        ensures
            n == self.spec_trunc(),
    {
        proof {
            lemma_trunc_div(self.raw as int, SCALE as int);
        }
        self.raw / SCALE
    }

    /// Adds exactly.
    pub fn add(self, rhs: Scalar) -> (r: Scalar)
        requires
            self.can_add(rhs),
        ensures
            r == self.spec_add(rhs),
            r.raw == self.raw + rhs.raw,
    {
        Scalar { raw: self.raw + rhs.raw }
    }

    /// Subtracts exactly.
    pub fn sub(self, rhs: Scalar) -> (r: Scalar)
        requires
            self.can_sub(rhs),
        ensures
            r == self.spec_sub(rhs),
            r.raw == self.raw - rhs.raw,
    {
        Scalar { raw: self.raw - rhs.raw }
    }

    /// Negates exactly.
    pub fn neg(self) -> (r: Scalar)
        requires
            self.can_neg(),
        ensures
            r == self.spec_neg(),
            r.raw == -self.raw,
    {
        Scalar { raw: -self.raw }
    }

    /// Multiplies, rounding toward zero.
    pub fn mul(self, rhs: Scalar) -> (r: Scalar)
        requires
            self.can_mul(rhs),
        ensures
            r == self.spec_mul(rhs),
            r.raw == self.mul_raw(rhs),
    {
        let a: i128 = self.raw as i128;
        let b: i128 = rhs.raw as i128;
        assert(-0x4000_0000_0000_0000_0000_0000_0000_0000 <= a * b
            <= 0x4000_0000_0000_0000_0000_0000_0000_0000) by (nonlinear_arith)
            requires
                -0x8000_0000_0000_0000 <= a <= 0x8000_0000_0000_0000,
                -0x8000_0000_0000_0000 <= b <= 0x8000_0000_0000_0000,
        ;
        let q: i128 = div_toward_zero(a * b, SCALE as i128);
        Scalar { raw: q as i64 }
    }

    /// Divides by a scalar other than zero, rounding toward zero.
    pub fn div(self, rhs: Scalar) -> (r: Scalar)
        requires
            self.can_div(rhs),
        ensures
            r == self.spec_div(rhs),
            r.raw == self.div_raw(rhs),
    {
        let a: i128 = self.raw as i128;
        let q: i128 = div_toward_zero(a * (SCALE as i128), rhs.raw as i128);
        Scalar { raw: q as i64 }
    }

    /// Multiplies by `t`, rounding toward zero, and adds `addend`.
    pub fn mul_add(self, t: Scalar, addend: Scalar) -> (r: Scalar)
        requires
            self.can_mul_add(t, addend),
        ensures
            r == self.spec_mul_add(t, addend),
    {
        let a: i128 = self.raw as i128;
        let b: i128 = t.raw as i128;
        assert(-0x4000_0000_0000_0000_0000_0000_0000_0000 <= a * b
            <= 0x4000_0000_0000_0000_0000_0000_0000_0000) by (nonlinear_arith)
            requires
                -0x8000_0000_0000_0000 <= a <= 0x8000_0000_0000_0000,
                -0x8000_0000_0000_0000 <= b <= 0x8000_0000_0000_0000,
        ;
        proof {
            lemma_trunc_div(a * b, SCALE as int);
        }
        let q: i128 = div_toward_zero(a * b, SCALE as i128);
        let sum: i128 = (addend.raw as i128) + q;
        Scalar { raw: sum as i64 }
    }

    /// Takes the scalar `n` times, exactly.
    pub fn mul_int(self, n: u32) -> (r: Scalar)
        requires
            self.can_mul_int(n),
        ensures
            r == self.spec_mul_int(n),
    {
        Scalar { raw: Scalar::wide_multiple(self.raw, n) as i64 }
    }

    /// Divides by the whole number `n`, which is not zero, rounding toward
    /// zero.
    pub fn div_int(self, n: u32) -> (r: Scalar)
        requires
            n != 0,
        ensures
            r == self.spec_div_int(n),
    {
        proof {
            lemma_trunc_div(self.raw as int, n as int);
        }
        Scalar { raw: self.raw / (n as i64) }
    }

    /// Adds, where the sum is representable.
    pub fn checked_add(self, rhs: Scalar) -> (r: Option<Scalar>)
        ensures
            r == (if self.can_add(rhs) {
                Some(self.spec_add(rhs))
            } else {
                None
            }),
    {
        let wide: i128 = (self.raw as i128) + (rhs.raw as i128);
        Scalar::narrow(wide)
    }

    /// Subtracts, where the difference is representable.
    pub fn checked_sub(self, rhs: Scalar) -> (r: Option<Scalar>)
        ensures
            r == (if self.can_sub(rhs) {
                Some(self.spec_sub(rhs))
            } else {
                None
            }),
    {
        let wide: i128 = (self.raw as i128) - (rhs.raw as i128);
        Scalar::narrow(wide)
    }

    /// Multiplies, where the rounded product is representable.
    pub fn checked_mul(self, rhs: Scalar) -> (r: Option<Scalar>)
        ensures
            r == (if self.can_mul(rhs) {
                Some(self.spec_mul(rhs))
            } else {
                None
            }),
    {
        let a: i128 = self.raw as i128;
        let b: i128 = rhs.raw as i128;
        assert(-0x4000_0000_0000_0000_0000_0000_0000_0000 <= a * b
            <= 0x4000_0000_0000_0000_0000_0000_0000_0000) by (nonlinear_arith)
            requires
                -0x8000_0000_0000_0000 <= a <= 0x8000_0000_0000_0000,
                -0x8000_0000_0000_0000 <= b <= 0x8000_0000_0000_0000,
        ;
        Scalar::narrow(div_toward_zero(a * b, SCALE as i128))
    }

    /// Takes the scalar `n` times, where that is representable.
    pub fn checked_mul_int(self, n: u32) -> (r: Option<Scalar>)
        ensures
            r == (if self.can_mul_int(n) {
                Some(self.spec_mul_int(n))
            } else {
                None
            }),
    {
        Scalar::narrow(Scalar::wide_multiple(self.raw, n))
    }

    /// The product `raw * n`, in a type wide enough for any of them.
    fn wide_multiple(raw: i64, n: u32) -> (wide: i128)
        ensures
            wide == raw * n,
    {
        let a: i128 = raw as i128;
        let b: i128 = n as i128;
        assert(-0x8000_0000_0000_0000 * 0x1_0000_0000 <= a * b <= 0x8000_0000_0000_0000
            * 0x1_0000_0000) by (nonlinear_arith)
            requires
                -0x8000_0000_0000_0000 <= a <= 0x8000_0000_0000_0000,
                0 <= b <= 0x1_0000_0000,
        ;
        a * b
    }

    /// The scalar of `wide` raw units, where there is one.
    fn narrow(wide: i128) -> (r: Option<Scalar>)
        ensures
            r == (if representable(wide as int) {
                Some(Scalar::of_raw(wide as int))
            } else {
                None
            }),
    {
        if wide < i64::MIN as i128 || wide > i64::MAX as i128 {
            None
        } else {
            Some(Scalar { raw: wide as i64 })
        }
    }
}

/// Multiplying by a whole number is exact.
pub proof fn lemma_mul_by_int(a: Scalar, n: int)
    requires
        representable(n * SCALE),
    ensures
        a.mul_raw(Scalar::spec_from_int(n)) == a.raw * n,
{
    let k = a.raw * n;
    assert(a.raw * (n * SCALE) == k * SCALE) by (nonlinear_arith)
        requires
            k == a.raw * n,
    ;
    lemma_trunc_div_exact(k, SCALE as int);
}

/// Dividing by a positive whole number never overflows, and the quotient
/// times the divisor is no larger in magnitude than the dividend.
pub proof fn lemma_div_by_int(a: Scalar, n: int)
    requires
        0 < n,
        representable(n * SCALE),
    ensures
        a.can_div(Scalar::spec_from_int(n)),
        magnitude(a.div_raw(Scalar::spec_from_int(n))) * magnitude(n) <= magnitude(a.raw as int),
        magnitude(a.div_raw(Scalar::spec_from_int(n))) <= magnitude(a.raw as int),
        a.raw == 0 ==> a.div_raw(Scalar::spec_from_int(n)) == 0,
{
    let d = n * SCALE;
    let x = a.raw * SCALE;
    let q = magnitude(trunc_div(x, d));
    let mn = magnitude(n);
    let ma = magnitude(a.raw as int);
    assert(Scalar::spec_from_int(n).raw == d);
    assert(d != 0);
    assert(a.div_raw(Scalar::spec_from_int(n)) == trunc_div(x, d));
    lemma_trunc_div(x, d);
    assert(magnitude(d) == mn * SCALE);
    assert(magnitude(x) == ma * SCALE);
    assert(q * mn <= ma) by (nonlinear_arith)
        requires
            q * (mn * SCALE) <= ma * SCALE,
    ;
    assert(q <= ma) by (nonlinear_arith)
        requires
            q * mn <= ma,
            1 <= mn,
            0 <= q,
    ;
}

/// Multiplication is commutative.
pub proof fn lemma_mul_commutative(a: Scalar, b: Scalar)
    ensures
        a.mul_raw(b) == b.mul_raw(a),
        a.can_mul(b) == b.can_mul(a),
        a.spec_mul(b) == b.spec_mul(a),
{
    assert(a.raw * b.raw == b.raw * a.raw) by (nonlinear_arith);
}

/// Multiplying by a scalar that stands for the fraction `num / den` exactly
/// is multiplying by `num` and dividing by `den`, rounding toward zero once.
pub proof fn lemma_mul_by_fraction(a: Scalar, f: Scalar, num: int, den: int)
    requires
        0 < den,
        f.raw * den == num * SCALE,
    ensures
        a.mul_raw(f) == trunc_div(a.raw * num, den),
{
    let p = a.raw * f.raw;
    let x = a.raw * num;
    assert(p * den == x * SCALE) by (nonlinear_arith)
        requires
            p == a.raw * f.raw,
            x == a.raw * num,
            f.raw * den == num * SCALE,
    ;
    lemma_trunc_div(p, SCALE as int);
    let q = magnitude(p) / (SCALE as int);
    let mp = magnitude(p);
    let mx = magnitude(x);
    assert(mp * den == mx * SCALE && ((p < 0) == (x < 0))) by (nonlinear_arith)
        requires
            p * den == x * SCALE,
            0 < den,
            mp == magnitude(p),
            mx == magnitude(x),
    ;
    assert(q * den <= mx && mx < q * den + den) by (nonlinear_arith)
        requires
            q * SCALE <= mp,
            mp < q * SCALE + SCALE,
            mp * den == mx * SCALE,
            0 < den,
            0 <= q,
    ;
    lemma_div_from_brackets(mx, den, q);
}

/// A product is no larger in magnitude than the exact product allows.
pub proof fn lemma_mul_raw_bound(a: Scalar, b: Scalar, bound_a: int, bound_b: int)
    requires
        magnitude(a.raw as int) <= bound_a,
        magnitude(b.raw as int) <= bound_b,
    ensures
        magnitude(a.mul_raw(b)) * SCALE <= bound_a * bound_b,
        (a.raw < 0) == (b.raw < 0) ==> a.mul_raw(b) >= 0,
        (a.raw < 0) != (b.raw < 0) ==> a.mul_raw(b) <= 0,
{
    let x = a.raw as int;
    let y = b.raw as int;
    lemma_trunc_div(x * y, SCALE as int);
    assert(magnitude(x * y) == magnitude(x) * magnitude(y)) by (nonlinear_arith);
    assert(magnitude(x) * magnitude(y) <= bound_a * bound_b) by (nonlinear_arith)
        requires
            0 <= magnitude(x) <= bound_a,
            0 <= magnitude(y) <= bound_b,
    ;
    assert((x * y < 0) ==> (x < 0) != (y < 0)) by (nonlinear_arith);
    assert((x < 0) != (y < 0) ==> x * y <= 0) by (nonlinear_arith);
}

/// How close `back` comes to `a` when `a` was multiplied by `s` and the
/// product divided by `s` again: it has the sign of `a`, is no larger in
/// magnitude, and falls short by less than `1 + SCALE / |s|` raw units.
pub open spec fn recovers(a: Scalar, s: Scalar, back: Scalar) -> bool {
    &&& a.raw >= 0 ==> 0 <= back.raw <= a.raw
    &&& a.raw <= 0 ==> a.raw <= back.raw <= 0
    &&& magnitude(a.raw - back.raw) * magnitude(s.raw as int) < SCALE + magnitude(s.raw as int)
}

/// Multiplying by a scalar other than zero and dividing by it again gives
/// back the scalar started from, up to the rounding of the two steps.
pub proof fn lemma_mul_then_div(a: Scalar, s: Scalar)
    requires
        s.raw != 0,
        a.can_mul(s),
    ensures
        a.spec_mul(s).can_div(s),
        recovers(a, s, a.spec_mul(s).spec_div(s)),
{
    let x = a.raw as int;
    let t = s.raw as int;
    let p = a.mul_raw(s);
    let q = trunc_div(p * SCALE, t);
    let ma = magnitude(x);
    let mt = magnitude(t);
    let mp = magnitude(p);
    let mq = magnitude(q);
    lemma_trunc_div(x * t, SCALE as int);
    lemma_trunc_div(p * SCALE, t);
    assert(magnitude(x * t) == ma * mt) by (nonlinear_arith)
        requires
            ma == magnitude(x),
            mt == magnitude(t),
    ;
    assert(magnitude(p * SCALE) == mp * SCALE);
    assert(mq <= ma && (ma - mq) * mt < SCALE + mt) by (nonlinear_arith)
        requires
            0 <= ma,
            0 < mt,
            0 <= mp,
            0 <= mq,
            mp * SCALE <= ma * mt,
            ma * mt < mp * SCALE + SCALE,
            mq * mt <= mp * SCALE,
            mp * SCALE < mq * mt + mt,
    ;
    assert((x * t < 0) ==> (x < 0) != (t < 0)) by (nonlinear_arith);
    assert((x * t > 0) ==> (x < 0) == (t < 0) && x != 0) by (nonlinear_arith);
    assert(x == 0 ==> x * t == 0) by (nonlinear_arith);
}

/// How close `back` comes to `a` when `a` was multiplied by `s` and the
/// product multiplied by the reciprocal of `s`: it has the sign of `a`, is no
/// larger in magnitude, and falls short by less than
/// `1 + SCALE / |s| + |a| * |s| / SCALE^2` raw units. The last term is the
/// rounding of the reciprocal, which keeps fewer digits the larger `s` is.
/// Since neither `s` nor its reciprocal is beyond the reach of a scalar, no
/// term can grow without bound: whatever `s` is, the loss is below 9224 raw
/// units for each whole unit of `a`, and 9225 more.
pub open spec fn recovers_by_reciprocal(a: Scalar, s: Scalar, back: Scalar) -> bool {
    let gap = magnitude(a.raw - back.raw);
    let size = magnitude(s.raw as int);
    &&& a.raw >= 0 ==> 0 <= back.raw <= a.raw
    &&& a.raw <= 0 ==> a.raw <= back.raw <= 0
    &&& gap * ((SCALE * SCALE) * size) < magnitude(a.raw as int) * (size * size) + (SCALE * SCALE)
        * SCALE + (SCALE * SCALE) * size
    &&& gap * SCALE < 9224 * magnitude(a.raw as int) + 9225 * SCALE
}

/// The magnitudes of a product, a reciprocal and their product, each
/// rounded down: with `p = floor(a * t / one)`, `r = floor(one^2 / t)` and
/// `q = floor(p * r / one)`, `q` is at most `a` and falls short of it as
/// `recovers_by_reciprocal` says.
proof fn lemma_reciprocal_magnitudes(a: int, t: int, p: int, r: int, q: int, one: int)
    requires
        0 <= a,
        0 < t,
        0 < one,
        0 <= p,
        0 <= r,
        0 <= q,
        p * one <= a * t,
        a * t < p * one + one,
        r * t <= one * one,
        one * one < r * t + t,
        q * one <= p * r,
        p * r < q * one + one,
    ensures
        q <= a,
        (a - q) * ((one * one) * t) < a * (t * t) + (one * one) * one + (one * one) * t,
{
    let oo = one * one;
    let u = p * one;
    let w = r * t;
    let x = a * t;
    let weight = oo * t;
    assert(0 < oo) by (nonlinear_arith)
        requires
            oo == one * one,
            0 < one,
    ;
    assert(0 < weight) by (nonlinear_arith)
        requires
            weight == oo * t,
            0 < oo,
            0 < t,
    ;
    assert(0 <= x) by (nonlinear_arith)
        requires
            x == a * t,
            0 <= a,
            0 < t,
    ;
    // (p r)(one t) is (p one)(r t).
    let pr = p * r;
    assert(pr * (one * t) == u * w) by (nonlinear_arith)
        requires
            pr == p * r,
            u == p * one,
            w == r * t,
    ;
    assert(0 < one * t) by (nonlinear_arith)
        requires
            0 < one,
            0 < t,
    ;
    assert(0 <= u && 0 <= w) by (nonlinear_arith)
        requires
            u == p * one,
            w == r * t,
            0 <= p,
            0 <= r,
            0 < one,
            0 < t,
    ;
    // From above.
    assert(u * w <= x * oo) by (nonlinear_arith)
        requires
            0 <= u <= x,
            0 <= w <= oo,
    ;
    assert((q * one) * (one * t) <= pr * (one * t)) by (nonlinear_arith)
        requires
            q * one <= pr,
            0 < one * t,
    ;
    assert((q * one) * (one * t) == q * weight) by (nonlinear_arith)
        requires
            weight == (one * one) * t,
    ;
    assert(x * oo == a * weight) by (nonlinear_arith)
        requires
            x == a * t,
            weight == oo * t,
    ;
    assert(q <= a) by (nonlinear_arith)
        requires
            q * weight <= a * weight,
            0 < weight,
    ;
    // From below.
    assert(pr * (one * t) < (q * one + one) * (one * t)) by (nonlinear_arith)
        requires
            pr < q * one + one,
            0 < one * t,
    ;
    assert((q * one + one) * (one * t) == q * weight + weight) by (nonlinear_arith)
        requires
            weight == (one * one) * t,
    ;
    let lost = a * (t * t) + oo * one;
    assert(0 <= a * (t * t)) by (nonlinear_arith)
        requires
            0 <= a,
    ;
    assert(0 < oo * one) by (nonlinear_arith)
        requires
            0 < oo,
            0 < one,
    ;
    if x < one || oo < t {
        // The product or the reciprocal rounds to zero.
        if x < one {
            assert(p == 0) by (nonlinear_arith)
                requires
                    p * one <= x,
                    x < one,
                    0 <= p,
                    0 < one,
            ;
            assert(a * weight < oo * one) by (nonlinear_arith)
                requires
                    a * weight == x * oo,
                    x < one,
                    0 < oo,
            ;
        } else {
            assert(r == 0) by (nonlinear_arith)
                requires
                    w == r * t,
                    w <= oo,
                    oo < t,
                    0 <= r,
                    0 < t,
            ;
            assert(a * weight <= a * (t * t)) by (nonlinear_arith)
                requires
                    weight == oo * t,
                    oo < t,
                    0 < t,
                    0 <= a,
            ;
        }
        assert(pr == 0) by (nonlinear_arith)
            requires
                pr == p * r,
                p == 0 || r == 0,
        ;
        assert(q == 0) by (nonlinear_arith)
            requires
                q * one <= pr,
                pr == 0,
                0 <= q,
                0 < one,
        ;
        assert((a - q) * weight == a * weight);
    } else {
        let ux = x - one;
        let wx = oo - t;
        assert(ux * wx <= u * w) by (nonlinear_arith)
            requires
                0 <= ux <= u,
                0 <= wx <= w,
        ;
        assert(ux * wx == a * weight - a * (t * t) - oo * one + one * t) by (nonlinear_arith)
            requires
                ux == a * t - one,
                wx == oo - t,
                weight == oo * t,
        ;
        assert((a - q) * weight == a * weight - q * weight) by (nonlinear_arith);
    }
}

/// Multiplying by a scalar and then by its reciprocal gives back the scalar
/// started from, up to the rounding of the three steps. The scalar is not
/// zero and not so close to it that its reciprocal is out of reach.
pub proof fn lemma_mul_then_mul_by_reciprocal(a: Scalar, s: Scalar)
    requires
        a.can_mul(s),
        Scalar::spec_from_int(1).can_div(s),
    ensures
        a.spec_mul(s).can_mul(Scalar::spec_from_int(1).spec_div(s)),
        recovers_by_reciprocal(
            a,
            s,
            a.spec_mul(s).spec_mul(Scalar::spec_from_int(1).spec_div(s)),
        ),
{
    let one = Scalar::spec_from_int(1);
    let x = a.raw as int;
    let t = s.raw as int;
    let p = a.mul_raw(s);
    let r = one.div_raw(s);
    lemma_trunc_div(x * t, SCALE as int);
    lemma_trunc_div(one.raw * SCALE, t);
    assert(one.raw * SCALE == SCALE * SCALE);
    let recip = one.spec_div(s);
    assert(recip.raw == r);
    let q = trunc_div(p * r, SCALE as int);
    lemma_trunc_div(p * r, SCALE as int);
    let ma = magnitude(x);
    let mt = magnitude(t);
    let mp = magnitude(p);
    let mr = magnitude(r);
    let mq = magnitude(q);
    assert(magnitude(x * t) == ma * mt) by (nonlinear_arith)
        requires
            ma == magnitude(x),
            mt == magnitude(t),
    ;
    assert(magnitude(p * r) == mp * mr) by (nonlinear_arith)
        requires
            mp == magnitude(p),
            mr == magnitude(r),
    ;
    lemma_reciprocal_magnitudes(ma, mt, mp, mr, mq, SCALE as int);
    // Signs: the product has the sign of a times that of s, the reciprocal
    // that of s, so their product has the sign of a.
    assert((x >= 0 ==> p * r >= 0) && (x <= 0 ==> p * r <= 0)) by (nonlinear_arith)
        requires
            x * t >= 0 ==> p >= 0,
            x * t <= 0 ==> p <= 0,
            t > 0 ==> r >= 0,
            t < 0 ==> r <= 0,
            t != 0,
    ;
    assert(a.spec_mul(s).raw == p);
    assert(a.spec_mul(s).mul_raw(recip) == q);
    // Multiplier and reciprocal both fit, so neither is beyond 9224.
    let one = SCALE as int;
    let gap = magnitude(x - q);
    assert(gap == ma - mq);
    assert(one < 9224 * mt) by (nonlinear_arith)
        requires
            one * one < mr * mt + mt,
            mr <= 9224 * one - 1,
            0 < mt,
            0 < one,
    ;
    assert(gap * ((one * one) * mt) < (9224 * ma + 9225 * one) * (one * mt)) by (nonlinear_arith)
        requires
            gap * ((one * one) * mt) < ma * (mt * mt) + (one * one) * one + (one * one) * mt,
            mt <= 9224 * one,
            one < 9224 * mt,
            0 <= ma,
            0 < mt,
            0 < one,
    ;
    assert(gap * one < 9224 * ma + 9225 * one) by (nonlinear_arith)
        requires
            gap * ((one * one) * mt) < (9224 * ma + 9225 * one) * (one * mt),
            0 < mt,
            0 < one,
    ;
}

} // verus!
