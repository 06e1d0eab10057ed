//! Three-component vectors over fixed-point scalars.
//!
//! A [`Vec3`] serves as a displacement, as a position ([`Point3`]) and as a
//! color. Every operation is pure: it returns a new value and leaves its
//! operands as they were.

use vstd::prelude::*;
use crate::arith::{
    floor_sqrt, isqrt, lemma_div_of_multiples, lemma_floor_sqrt_lower, lemma_floor_sqrt_upper, lemma_sqrt_of_quotient,
    lemma_sqrt_of_quotient_lower, lemma_sqrt_of_quotient_upper, magnitude, product_le, trunc_div,
};
use crate::scalar::{lemma_mul_then_div, recovers, representable, Scalar, SCALE};

verus! {

/// A vector of three fixed-point components.
#[derive(Clone, Copy, Debug, PartialEq, Eq, Structural)]
pub struct Vec3 {
    pub x: Scalar,
    pub y: Scalar,
    pub z: Scalar,
}

/// A position in space.
pub type Point3 = Vec3;

/// The square of `raw`, as an unsigned number.
fn square(raw: i64) -> (sq: u128)
    ensures
        sq == raw * raw,
        sq <= 0x4000_0000_0000_0000_0000_0000_0000_0000,
{
    let wide: i128 = raw as i128;
    assert(0 <= wide * wide <= 0x4000_0000_0000_0000_0000_0000_0000_0000) by (nonlinear_arith)
        requires
            -0x8000_0000_0000_0000 <= wide <= 0x8000_0000_0000_0000,
    ;
    (wide * wide) as u128
}

impl Vec3 {
    /// Whether every component of the sum is representable.
    pub open spec fn can_add(self, rhs: Vec3) -> bool {
        self.x.can_add(rhs.x) && self.y.can_add(rhs.y) && self.z.can_add(rhs.z)
    }

    /// The component-wise sum.
    pub open spec fn spec_add(self, rhs: Vec3) -> Vec3
        recommends
            self.can_add(rhs),
    {
        Vec3 { x: self.x.spec_add(rhs.x), y: self.y.spec_add(rhs.y), z: self.z.spec_add(rhs.z) }
    }

    /// Whether every component of the difference is representable.
    pub open spec fn can_sub(self, rhs: Vec3) -> bool {
        self.x.can_sub(rhs.x) && self.y.can_sub(rhs.y) && self.z.can_sub(rhs.z)
    }

    /// The component-wise difference.
    pub open spec fn spec_sub(self, rhs: Vec3) -> Vec3
        recommends
            self.can_sub(rhs),
    {
        Vec3 { x: self.x.spec_sub(rhs.x), y: self.y.spec_sub(rhs.y), z: self.z.spec_sub(rhs.z) }
    }

    /// Whether every component of the negation is representable.
    pub open spec fn can_neg(self) -> bool {
        self.x.can_neg() && self.y.can_neg() && self.z.can_neg()
    }

    /// The vector of the same length that points the opposite way.
    pub open spec fn spec_neg(self) -> Vec3
        recommends
            self.can_neg(),
    {
        Vec3 { x: self.x.spec_neg(), y: self.y.spec_neg(), z: self.z.spec_neg() }
    }

    /// Whether every component of the scaled vector is representable.
    pub open spec fn can_mul_scalar(self, t: Scalar) -> bool {
        self.x.can_mul(t) && self.y.can_mul(t) && self.z.can_mul(t)
    }

    /// Each component multiplied by `t`.
    pub open spec fn spec_mul_scalar(self, t: Scalar) -> Vec3
        recommends
            self.can_mul_scalar(t),
    {
        Vec3 { x: self.x.spec_mul(t), y: self.y.spec_mul(t), z: self.z.spec_mul(t) }
    }

    /// Whether `t` is not zero and every component of the quotient is
    /// representable.
    pub open spec fn can_div_scalar(self, t: Scalar) -> bool {
        self.x.can_div(t) && self.y.can_div(t) && self.z.can_div(t)
    }

    /// Each component divided by `t`, which is not zero.
    pub open spec fn spec_div_scalar(self, t: Scalar) -> Vec3
        recommends
            self.can_div_scalar(t),
    {
        Vec3 { x: self.x.spec_div(t), y: self.y.spec_div(t), z: self.z.spec_div(t) }
    }

    /// Whether every component taken `n` times is representable.
    pub open spec fn can_mul_int(self, n: u32) -> bool {
        self.x.can_mul_int(n) && self.y.can_mul_int(n) && self.z.can_mul_int(n)
    }

    /// The vector taken `n` times, exactly.
    pub open spec fn spec_mul_int(self, n: u32) -> Vec3
        recommends
            self.can_mul_int(n),
    {
        Vec3 { x: self.x.spec_mul_int(n), y: self.y.spec_mul_int(n), z: self.z.spec_mul_int(n) }
    }

    /// Each component divided by the whole number `n`, which is not zero.
    pub open spec fn spec_div_int(self, n: u32) -> Vec3
        recommends
            n != 0,
    {
        Vec3 { x: self.x.spec_div_int(n), y: self.y.spec_div_int(n), z: self.z.spec_div_int(n) }
    }

    /// The sum of the squares of the raw components.
    pub open spec fn norm_sq_raw(self) -> int {
        self.x.raw * self.x.raw + self.y.raw * self.y.raw + self.z.raw * self.z.raw
    }

    /// Whether every component is zero.
    pub open spec fn is_zero(self) -> bool {
        self.x.raw == 0 && self.y.raw == 0 && self.z.raw == 0
    }

    /// The raw units of the squared length: the exact sum of squares,
    /// rounded toward zero once.
    pub open spec fn length_squared_raw(self) -> int {
        trunc_div(self.norm_sq_raw(), SCALE as int)
    }

    /// The squared Euclidean length.
    pub open spec fn spec_length_squared(self) -> Scalar
        recommends
            representable(self.length_squared_raw()),
    {
        Scalar::of_raw(self.length_squared_raw())
    }

    /// The raw units of the length: the square root of the exact sum of
    /// squares, rounded down.
    pub open spec fn length_raw(self) -> int {
        floor_sqrt(self.norm_sq_raw())
    }

    /// The Euclidean length.
    pub open spec fn spec_length(self) -> Scalar
        recommends
            representable(self.length_raw()),
    {
        Scalar::of_raw(self.length_raw())
    }

    /// The raw units of one component `c` of a vector after normalization,
    /// where `norm_sq` is the sum of the squares of the vector's raw
    /// components: `c / sqrt(norm_sq)`, rounded toward zero. Its magnitude
    /// is the largest `t` with `t^2 * norm_sq <= SCALE^2 * c^2`, so the root
    /// is never rounded before the division.
    pub open spec fn unit_raw(c: Scalar, norm_sq: int) -> int
        recommends
            norm_sq > 0,
    {
        let t = floor_sqrt(((SCALE * SCALE) * (c.raw * c.raw)) / norm_sq);
        if c.raw < 0 {
            -t
        } else {
            t
        }
    }

    /// The vector scaled by the reciprocal of its length.
    pub open spec fn spec_unit_vec(v: Vec3) -> Vec3
        recommends
            !v.is_zero(),
    {
        Vec3 {
            x: Scalar::of_raw(Vec3::unit_raw(v.x, v.norm_sq_raw())),
            y: Scalar::of_raw(Vec3::unit_raw(v.y, v.norm_sq_raw())),
            z: Scalar::of_raw(Vec3::unit_raw(v.z, v.norm_sq_raw())),
        }
    }

    /// Makes a vector from its three components.
    pub fn new(x: Scalar, y: Scalar, z: Scalar) -> (v: Vec3)
        ensures
            v == (Vec3 { x, y, z }),
    {
        Vec3 { x, y, z }
    }

    /// The first component.
    pub fn x(&self) -> (c: Scalar)
        ensures
            c == self.x,
    {
        self.x
    }

    /// The second component.
    pub fn y(&self) -> (c: Scalar)
        ensures
            c == self.y,
    {
        self.y
    }

    /// The third component.
    pub fn z(&self) -> (c: Scalar)
        ensures
            c == self.z,
    {
        self.z
    }

    /// Adds component by component.
    pub fn add(self, rhs: Vec3) -> (r: Vec3)
        requires
            self.can_add(rhs),
        ensures
            r == self.spec_add(rhs),
    {
        Vec3 { x: self.x.add(rhs.x), y: self.y.add(rhs.y), z: self.z.add(rhs.z) }
    }

    /// Subtracts component by component.
    pub fn sub(self, rhs: Vec3) -> (r: Vec3)
        requires
            self.can_sub(rhs),
        ensures
            r == self.spec_sub(rhs),
    {
        Vec3 { x: self.x.sub(rhs.x), y: self.y.sub(rhs.y), z: self.z.sub(rhs.z) }
    }

    /// Negates every component.
    pub fn neg(self) -> (r: Vec3)
        requires
            self.can_neg(),
        ensures
            r == self.spec_neg(),
    {
        Vec3 { x: self.x.neg(), y: self.y.neg(), z: self.z.neg() }
    }

    /// Multiplies every component by `t`.
    pub fn mul_scalar(self, t: Scalar) -> (r: Vec3)
        requires
            self.can_mul_scalar(t),
        ensures
            r == self.spec_mul_scalar(t),
    {
        Vec3 { x: self.x.mul(t), y: self.y.mul(t), z: self.z.mul(t) }
    }

    /// Divides each component by `t`, which must not be zero.
    pub fn div_scalar(self, t: Scalar) -> (r: Vec3)
        requires
            self.can_div_scalar(t),
        ensures
            r == self.spec_div_scalar(t),
    {
        Vec3 { x: self.x.div(t), y: self.y.div(t), z: self.z.div(t) }
    }

    /// Takes the vector `n` times, exactly.
    pub fn mul_int(self, n: u32) -> (r: Vec3)
        requires
            self.can_mul_int(n),
        ensures
            r == self.spec_mul_int(n),
    {
        Vec3 { x: self.x.mul_int(n), y: self.y.mul_int(n), z: self.z.mul_int(n) }
    }

    /// Divides each component by the whole number `n`, which must not be
    /// zero.
    pub fn div_int(self, n: u32) -> (r: Vec3)
        requires
            n != 0,
        ensures
            r == self.spec_div_int(n),
    {
        Vec3 { x: self.x.div_int(n), y: self.y.div_int(n), z: self.z.div_int(n) }
    }

    /// Adds, where every component of the sum is representable.
    pub fn checked_add(self, rhs: Vec3) -> (r: Option<Vec3>)
        ensures
            r == (if self.can_add(rhs) {
                Some(self.spec_add(rhs))
            } else {
                None
            }),
    {
        match (self.x.checked_add(rhs.x), self.y.checked_add(rhs.y), self.z.checked_add(rhs.z)) {
            (Some(x), Some(y), Some(z)) => Some(Vec3 { x, y, z }),
            _ => None,
        }
    }

    /// Subtracts, where every component of the difference is representable.
    pub fn checked_sub(self, rhs: Vec3) -> (r: Option<Vec3>)
        ensures
            r == (if self.can_sub(rhs) {
                Some(self.spec_sub(rhs))
            } else {
                None
            }),
    {
        match (self.x.checked_sub(rhs.x), self.y.checked_sub(rhs.y), self.z.checked_sub(rhs.z)) {
            (Some(x), Some(y), Some(z)) => Some(Vec3 { x, y, z }),
            _ => None,
        }
    }

    /// Takes the vector `n` times, where that is representable.
    pub fn checked_mul_int(self, n: u32) -> (r: Option<Vec3>)
        ensures
            r == (if self.can_mul_int(n) {
                Some(self.spec_mul_int(n))
            } else {
                None
            }),
    {
        match (self.x.checked_mul_int(n), self.y.checked_mul_int(n), self.z.checked_mul_int(n)) {
            (Some(x), Some(y), Some(z)) => Some(Vec3 { x, y, z }),
            _ => None,
        }
    }

    /// The exact sum of the squares of the raw components.
    fn norm_sq(&self) -> (n: u128)
        ensures
            n == self.norm_sq_raw(),
    {
        square(self.x.raw) + square(self.y.raw) + square(self.z.raw)
    }

    /// The squared Euclidean length.
    pub fn length_squared(&self) -> (r: Scalar)
        requires
            representable(self.length_squared_raw()),
        ensures
            r == self.spec_length_squared(),
    {
        let n: u128 = self.norm_sq();
        let q: u128 = n / (SCALE as u128);
        Scalar { raw: q as i64 }
    }

    /// The Euclidean length.
    pub fn length(&self) -> (r: Scalar)
        requires
            representable(self.length_raw()),
        ensures
            r == self.spec_length(),
    {
        let root: u64 = isqrt(self.norm_sq());
        Scalar { raw: root as i64 }
    }

    /// Scales `v`, which must not be the zero vector, to unit length.
    pub fn unit_vec(v: Vec3) -> (u: Vec3)
        requires
            !v.is_zero(),
        ensures
            u == Vec3::spec_unit_vec(v),
            magnitude(u.x.raw as int) <= SCALE,
            magnitude(u.y.raw as int) <= SCALE,
            magnitude(u.z.raw as int) <= SCALE,
    {
        let norm_sq: u128 = v.norm_sq();
        proof {
            lemma_norm_sq_dominates(v);
            lemma_unit_components(v);
        }
        Vec3 {
            x: Scalar { raw: unit_component(v.x.raw, norm_sq) },
            y: Scalar { raw: unit_component(v.y.raw, norm_sq) },
            z: Scalar { raw: unit_component(v.z.raw, norm_sq) },
        }
    }
}

/// One component of a normalized vector, found by bisection: the largest
/// `t` with `t^2 * norm_sq <= SCALE^2 * c^2`, with the sign of `c`.
fn unit_component(c: i64, norm_sq: u128) -> (r: i64)
    requires
        0 < norm_sq,
        c * c <= norm_sq,
    ensures
        r == Vec3::unit_raw(Scalar { raw: c }, norm_sq as int),
{
    let c_sq: u128 = square(c);
    let one: u128 = SCALE as u128;
    assert(one * one == SCALE * SCALE) by (nonlinear_arith)
        requires
            one == SCALE,
    ;
    let one_sq: u128 = one * one;
    let mut lo: u128 = 0;
    let mut hi: u128 = one + 1;
    proof {
        assert(0 <= one_sq * c_sq) by (nonlinear_arith)
            requires
                0 <= one_sq,
                0 <= c_sq,
        ;
        assert((lo * lo) * norm_sq == 0) by (nonlinear_arith)
            requires
                lo == 0,
        ;
        assert(one_sq < hi * hi) by (nonlinear_arith)
            requires
                one_sq == one * one,
                hi == one + 1,
                0 <= one,
        ;
        assert(one_sq * c_sq < (hi * hi) * norm_sq) by (nonlinear_arith)
            requires
                one_sq < hi * hi,
                0 <= c_sq <= norm_sq,
                0 < norm_sq,
                0 <= one_sq,
        ;
    }
    while hi - lo > 1
        invariant
            lo < hi <= SCALE + 1,
            one_sq == SCALE * SCALE,
            c_sq == c * c,
            0 < norm_sq,
            (lo * lo) * norm_sq <= one_sq * c_sq,
            one_sq * c_sq < (hi * hi) * norm_sq,
        decreases hi - lo,
    {
        let mid: u128 = lo + (hi - lo) / 2;
        assert(mid * mid <= 0xffff_ffff_ffff_ffff * 0xffff_ffff_ffff_ffff) by (nonlinear_arith)
            requires
                0 <= mid <= 0xffff_ffff_ffff_ffff,
        ;
        if product_le(mid * mid, norm_sq, one_sq, c_sq) {
            lo = mid;
        } else {
            hi = mid;
        }
    }
    proof {
        let num = (SCALE * SCALE) * (c * c);
        assert(0 <= num);
        lemma_sqrt_of_quotient_lower(num, norm_sq as int, lo as int);
        lemma_sqrt_of_quotient_upper(num, norm_sq as int, lo + 1);
    }
    if c < 0 {
        -(lo as i64)
    } else {
        lo as i64
    }
}

/// The square of a component is at most the sum of the squares, which is
/// positive unless the vector is zero.
pub proof fn lemma_norm_sq_dominates(v: Vec3)
    ensures
        0 <= v.x.raw * v.x.raw <= v.norm_sq_raw(),
        0 <= v.y.raw * v.y.raw <= v.norm_sq_raw(),
        0 <= v.z.raw * v.z.raw <= v.norm_sq_raw(),
        !v.is_zero() ==> 0 < v.norm_sq_raw(),
{
    let x = v.x.raw as int;
    let y = v.y.raw as int;
    let z = v.z.raw as int;
    assert(x * x >= 0 && y * y >= 0 && z * z >= 0) by (nonlinear_arith);
    assert(x != 0 ==> x * x > 0) by (nonlinear_arith);
    assert(y != 0 ==> y * y > 0) by (nonlinear_arith);
    assert(z != 0 ==> z * z > 0) by (nonlinear_arith);
}

/// What normalizing does to one component: with `t` the magnitude of the
/// result, `t^2 * norm_sq <= SCALE^2 * c^2 < (t + 1)^2 * norm_sq`. The
/// result has the sign of `c` and lies between minus one and one.
pub proof fn lemma_unit_raw(c: Scalar, norm_sq: int)
    requires
        0 < norm_sq,
        c.raw * c.raw <= norm_sq,
    ensures
        magnitude(Vec3::unit_raw(c, norm_sq)) <= SCALE,
        (magnitude(Vec3::unit_raw(c, norm_sq)) * magnitude(Vec3::unit_raw(c, norm_sq))) * norm_sq
            <= (SCALE * SCALE) * (c.raw * c.raw),
        (SCALE * SCALE) * (c.raw * c.raw) < ((magnitude(Vec3::unit_raw(c, norm_sq)) + 1) * (
        magnitude(Vec3::unit_raw(c, norm_sq)) + 1)) * norm_sq,
        c.raw >= 0 ==> Vec3::unit_raw(c, norm_sq) >= 0,
        c.raw <= 0 ==> Vec3::unit_raw(c, norm_sq) <= 0,
{
    let c_sq = c.raw * c.raw;
    let one_sq = SCALE * SCALE;
    let num = one_sq * c_sq;
    assert(0 <= c_sq) by (nonlinear_arith)
        requires
            c_sq == c.raw * c.raw,
    ;
    assert(0 <= num <= one_sq * norm_sq) by (nonlinear_arith)
        requires
            num == one_sq * c_sq,
            0 <= c_sq <= norm_sq,
            0 <= one_sq,
    ;
    lemma_sqrt_of_quotient(num, norm_sq);
    let t = floor_sqrt(num / norm_sq);
    assert(magnitude(Vec3::unit_raw(c, norm_sq)) == t);
    assert(one_sq * norm_sq < ((SCALE + 1) * (SCALE + 1)) * norm_sq) by (nonlinear_arith)
        requires
            one_sq == SCALE * SCALE,
            0 < norm_sq,
    ;
    lemma_sqrt_of_quotient_upper(num, norm_sq, SCALE + 1);
    if c.raw == 0 {
        assert(c_sq == 0);
        assert(num == 0) by (nonlinear_arith)
            requires
                num == one_sq * c_sq,
                c_sq == 0,
        ;
        assert(1 * norm_sq == norm_sq);
        lemma_sqrt_of_quotient_upper(num, norm_sq, 1);
    }
}

/// Each component of a normalized vector lies between minus one and one.
pub proof fn lemma_unit_components(v: Vec3)
    requires
        !v.is_zero(),
    ensures
        magnitude(Vec3::unit_raw(v.x, v.norm_sq_raw())) <= SCALE,
        magnitude(Vec3::unit_raw(v.y, v.norm_sq_raw())) <= SCALE,
        magnitude(Vec3::unit_raw(v.z, v.norm_sq_raw())) <= SCALE,
{
    lemma_norm_sq_dominates(v);
    lemma_unit_raw(v.x, v.norm_sq_raw());
    lemma_unit_raw(v.y, v.norm_sq_raw());
    lemma_unit_raw(v.z, v.norm_sq_raw());
}

/// Normalizing a vector other than zero gives a vector of length one, up to
/// rounding: whatever the length of the vector normalized, the length of the
/// result is at most one and falls short of one by at most four raw units.
pub proof fn lemma_unit_vec_length(v: Vec3)
    requires
        !v.is_zero(),
    ensures
        SCALE - 4 <= Vec3::spec_unit_vec(v).length_raw() <= SCALE,
{
    let u = Vec3::spec_unit_vec(v);
    let n = v.norm_sq_raw();
    let n_unit = u.norm_sq_raw();
    let s = SCALE as int;
    let ss = SCALE * SCALE;
    lemma_norm_sq_dominates(v);
    lemma_unit_raw(v.x, n);
    lemma_unit_raw(v.y, n);
    lemma_unit_raw(v.z, n);
    let cx = v.x.raw * v.x.raw;
    let cy = v.y.raw * v.y.raw;
    let cz = v.z.raw * v.z.raw;
    let tx = magnitude(u.x.raw as int);
    let ty = magnitude(u.y.raw as int);
    let tz = magnitude(u.z.raw as int);
    assert(n_unit == tx * tx + ty * ty + tz * tz) by (nonlinear_arith)
        requires
            n_unit == u.x.raw * u.x.raw + u.y.raw * u.y.raw + u.z.raw * u.z.raw,
            tx == magnitude(u.x.raw as int),
            ty == magnitude(u.y.raw as int),
            tz == magnitude(u.z.raw as int),
    ;
    // From above: the squares of the result, each times n, stay below
    // SCALE^2 times the squares they came from, which sum to n.
    assert(n_unit * n <= ss * n) by (nonlinear_arith)
        requires
            n_unit == tx * tx + ty * ty + tz * tz,
            n == cx + cy + cz,
            (tx * tx) * n <= ss * cx,
            (ty * ty) * n <= ss * cy,
            (tz * tz) * n <= ss * cz,
    ;
    assert(n_unit <= ss) by (nonlinear_arith)
        requires
            n_unit * n <= ss * n,
            0 < n,
    ;
    assert(0 <= n_unit) by (nonlinear_arith)
        requires
            n_unit == tx * tx + ty * ty + tz * tz,
    ;
    assert(ss < (s + 1) * (s + 1)) by (nonlinear_arith)
        requires
            ss == s * s,
            0 <= s,
    ;
    lemma_floor_sqrt_upper(n_unit, s + 1);
    // From below: each magnitude plus one overshoots.
    let over = (tx + 1) * (tx + 1) + (ty + 1) * (ty + 1) + (tz + 1) * (tz + 1);
    assert(ss * n < over * n) by (nonlinear_arith)
        requires
            over == (tx + 1) * (tx + 1) + (ty + 1) * (ty + 1) + (tz + 1) * (tz + 1),
            n == cx + cy + cz,
            ss * cx < ((tx + 1) * (tx + 1)) * n,
            ss * cy < ((ty + 1) * (ty + 1)) * n,
            ss * cz < ((tz + 1) * (tz + 1)) * n,
    ;
    assert(ss < over) by (nonlinear_arith)
        requires
            ss * n < over * n,
            0 < n,
    ;
    assert(over == n_unit + 2 * (tx + ty + tz) + 3) by (nonlinear_arith)
        requires
            over == (tx + 1) * (tx + 1) + (ty + 1) * (ty + 1) + (tz + 1) * (tz + 1),
            n_unit == tx * tx + ty * ty + tz * tz,
    ;
    assert((s - 4) * (s - 4) <= ss - 6 * s - 2) by (nonlinear_arith)
        requires
            ss == s * s,
            s >= 9,
    ;
    lemma_floor_sqrt_lower(n_unit, s - 4);
}

/// One component of two parallel vectors normalizes alike: where `p` times
/// the one vector is `q` times the other, `c` and `norm_sq` being a
/// component and the sum of squares of the one and `d` and `other_sq` those
/// of the other.
proof fn lemma_unit_raw_of_parallel(c: Scalar, norm_sq: int, d: Scalar, other_sq: int, p: int, q: int)
    requires
        0 < p,
        0 < q,
        0 < norm_sq,
        0 < other_sq,
        p * c.raw == q * d.raw,
        (p * p) * norm_sq == (q * q) * other_sq,
    ensures
        Vec3::unit_raw(c, norm_sq) == Vec3::unit_raw(d, other_sq),
{
    let ss = SCALE * SCALE;
    let pp = p * p;
    let qq = q * q;
    let x = ss * (c.raw * c.raw);
    let y = ss * (d.raw * d.raw);
    assert(0 < pp && 0 < qq) by (nonlinear_arith)
        requires
            pp == p * p,
            qq == q * q,
            0 < p,
            0 < q,
    ;
    assert(0 <= x && 0 <= y) by (nonlinear_arith)
        requires
            x == ss * (c.raw * c.raw),
            y == ss * (d.raw * d.raw),
            0 <= ss,
    ;
    lemma_squares_of_multiples(p, c.raw as int, q, d.raw as int);
    assert(pp * x == qq * y) by (nonlinear_arith)
        requires
            x == ss * (c.raw * c.raw),
            y == ss * (d.raw * d.raw),
            pp * (c.raw * c.raw) == qq * (d.raw * d.raw),
    ;
    lemma_div_of_multiples(x, norm_sq, pp);
    lemma_div_of_multiples(y, other_sq, qq);
    assert((c.raw < 0) == (d.raw < 0)) by (nonlinear_arith)
        requires
            p * c.raw == q * d.raw,
            0 < p,
            0 < q,
    ;
}

/// Equal products have equal squares.
proof fn lemma_squares_of_multiples(p: int, c: int, q: int, d: int)
    requires
        p * c == q * d,
    ensures
        (p * p) * (c * c) == (q * q) * (d * d),
{
    let m = p * c;
    assert((p * p) * (c * c) == m * m) by (nonlinear_arith)
        requires
            m == p * c,
    ;
    assert((q * q) * (d * d) == m * m) by (nonlinear_arith)
        requires
            m == q * d,
    ;
}

/// Normalizing depends on the direction alone, not on the length: two
/// vectors that point the same way, `p` times the one being `q` times the
/// other for positive whole `p` and `q`, normalize to the same vector.
pub proof fn lemma_unit_vec_of_parallel(v: Vec3, w: Vec3, p: int, q: int)
    requires
        0 < p,
        0 < q,
        !v.is_zero(),
        p * v.x.raw == q * w.x.raw,
        p * v.y.raw == q * w.y.raw,
        p * v.z.raw == q * w.z.raw,
    ensures
        !w.is_zero(),
        Vec3::spec_unit_vec(v) == Vec3::spec_unit_vec(w),
{
    assert(!w.is_zero()) by (nonlinear_arith)
        requires
            0 < p,
            0 < q,
            !(v.x.raw == 0 && v.y.raw == 0 && v.z.raw == 0),
            p * v.x.raw == q * w.x.raw,
            p * v.y.raw == q * w.y.raw,
            p * v.z.raw == q * w.z.raw,
    ;
    lemma_norm_sq_dominates(v);
    lemma_norm_sq_dominates(w);
    let n = v.norm_sq_raw();
    let m = w.norm_sq_raw();
    let pp = p * p;
    let qq = q * q;
    lemma_squares_of_multiples(p, v.x.raw as int, q, w.x.raw as int);
    lemma_squares_of_multiples(p, v.y.raw as int, q, w.y.raw as int);
    lemma_squares_of_multiples(p, v.z.raw as int, q, w.z.raw as int);
    let vx = v.x.raw * v.x.raw;
    let vy = v.y.raw * v.y.raw;
    let vz = v.z.raw * v.z.raw;
    let wx = w.x.raw * w.x.raw;
    let wy = w.y.raw * w.y.raw;
    let wz = w.z.raw * w.z.raw;
    assert(pp * (vx + vy + vz) == pp * vx + pp * vy + pp * vz) by (nonlinear_arith);
    assert(qq * (wx + wy + wz) == qq * wx + qq * wy + qq * wz) by (nonlinear_arith);
    assert((p * p) * n == (q * q) * m);
    lemma_unit_raw_of_parallel(v.x, n, w.x, m, p, q);
    lemma_unit_raw_of_parallel(v.y, n, w.y, m, p, q);
    lemma_unit_raw_of_parallel(v.z, n, w.z, m, p, q);
}

/// Of two right triangles that share one leg, the one with the longer other
/// leg has that leg make up the larger part of the hypotenuse: with `rest`
/// the square of the shared leg and `0 <= y1 <= y2` the other legs,
/// `y1 / sqrt(rest + y1^2)` is at most `y2 / sqrt(rest + y2^2)`, and stays so
/// when both are rounded down.
proof fn lemma_leg_share_monotonic(rest: int, y1: int, y2: int)
    requires
        0 <= rest,
        0 <= y1 <= y2,
        0 < rest + y1 * y1,
    ensures
        floor_sqrt(((SCALE * SCALE) * (y1 * y1)) / (rest + y1 * y1)) <= floor_sqrt(
            ((SCALE * SCALE) * (y2 * y2)) / (rest + y2 * y2),
        ),
{
    let ss = SCALE * SCALE;
    let a1 = y1 * y1;
    let a2 = y2 * y2;
    let n1 = rest + a1;
    let n2 = rest + a2;
    assert(0 <= a1 <= a2) by (nonlinear_arith)
        requires
            a1 == y1 * y1,
            a2 == y2 * y2,
            0 <= y1 <= y2,
    ;
    assert(0 <= ss * a1) by (nonlinear_arith)
        requires
            0 <= ss,
            0 <= a1,
    ;
    lemma_sqrt_of_quotient(ss * a1, n1);
    let t = floor_sqrt((ss * a1) / n1);
    let tt = t * t;
    // t^2 n1 <= ss a1 and a1 n2 <= a2 n1 give t^2 n2 <= ss a2.
    assert(a1 * n2 <= a2 * n1) by (nonlinear_arith)
        requires
            n1 == rest + a1,
            n2 == rest + a2,
            0 <= a1 <= a2,
            0 <= rest,
    ;
    assert(0 <= tt) by (nonlinear_arith)
        requires
            tt == t * t,
    ;
    assert((tt * n2) * n1 <= (ss * a2) * n1) by (nonlinear_arith)
        requires
            tt * n1 <= ss * a1,
            a1 * n2 <= a2 * n1,
            0 <= ss,
            0 <= tt,
            0 < n1,
            0 < n2,
    ;
    assert(tt * n2 <= ss * a2) by (nonlinear_arith)
        requires
            (tt * n2) * n1 <= (ss * a2) * n1,
            0 < n1,
    ;
    lemma_sqrt_of_quotient_lower(ss * a2, n2, t);
}

/// Normalizing keeps the order of the vertical component: of two vectors
/// other than zero that differ in `y` alone, the one with the larger `y`
/// normalizes to the larger `y`, or to the same where rounding hides the
/// difference.
pub proof fn lemma_unit_y_monotonic(a: Vec3, b: Vec3)
    requires
        a.x == b.x,
        a.z == b.z,
        a.y.raw <= b.y.raw,
        !a.is_zero(),
        !b.is_zero(),
    ensures
        Vec3::spec_unit_vec(a).y.raw <= Vec3::spec_unit_vec(b).y.raw,
{
    let x = a.x.raw as int;
    let z = a.z.raw as int;
    let ya = a.y.raw as int;
    let yb = b.y.raw as int;
    let rest = x * x + z * z;
    lemma_norm_sq_dominates(a);
    lemma_norm_sq_dominates(b);
    lemma_unit_raw(a.y, a.norm_sq_raw());
    lemma_unit_raw(b.y, b.norm_sq_raw());
    if ya >= 0 {
        lemma_leg_share_monotonic(rest, ya, yb);
    } else if yb <= 0 {
        // Mirrored in the horizontal plane, the squares stay and the
        // vertical components change sign and swap their order.
        assert((-ya) * (-ya) == ya * ya) by (nonlinear_arith);
        assert((-yb) * (-yb) == yb * yb) by (nonlinear_arith);
        lemma_leg_share_monotonic(rest, -yb, -ya);
    }
}

/// Adding a vector and then subtracting it again gives back the vector
/// started from.
pub proof fn lemma_add_then_sub(a: Vec3, b: Vec3)
    requires
        a.can_add(b),
    ensures
        a.spec_add(b).can_sub(b),
        a.spec_add(b).spec_sub(b) == a,
{
}

/// Vector addition is commutative.
pub proof fn lemma_add_commutative(a: Vec3, b: Vec3)
    requires
        a.can_add(b),
    ensures
        b.can_add(a),
        a.spec_add(b) == b.spec_add(a),
{
}

/// Vector addition is associative.
pub proof fn lemma_add_associative(a: Vec3, b: Vec3, c: Vec3)
    requires
        a.can_add(b),
        b.can_add(c),
        a.spec_add(b).can_add(c),
    ensures
        a.can_add(b.spec_add(c)),
        a.spec_add(b).spec_add(c) == a.spec_add(b.spec_add(c)),
{
}

/// Scaling a vector by a scalar other than zero and dividing by it again
/// gives back the vector started from, each component up to the rounding of
/// the two steps.
pub proof fn lemma_mul_then_div_scalar(a: Vec3, s: Scalar)
    requires
        s.raw != 0,
        a.can_mul_scalar(s),
    ensures
        a.spec_mul_scalar(s).can_div_scalar(s),
        recovers(a.x, s, a.spec_mul_scalar(s).spec_div_scalar(s).x),
        recovers(a.y, s, a.spec_mul_scalar(s).spec_div_scalar(s).y),
        recovers(a.z, s, a.spec_mul_scalar(s).spec_div_scalar(s).z),
{
    lemma_mul_then_div(a.x, s);
    lemma_mul_then_div(a.y, s);
    lemma_mul_then_div(a.z, s);
}

} // verus!
