//! The background: a vertical gradient from white to blue.
//!
//! A ray is colored by the vertical component of its direction alone. With
//! `y` the second component of the normalized direction, the weight
//! `a = (y + 1) * 0.5` runs from zero, straight down, to one, straight up,
//! and the color is `(1 - a) * white + a * blue`.

use vstd::prelude::*;
use crate::color::{is_displayable, is_fraction, lemma_fraction_is_displayable, Color};
use crate::ray::Ray;
use crate::scalar::{lemma_mul_by_fraction, lemma_mul_commutative, Scalar, SCALE};
use crate::vec3::{lemma_unit_components, lemma_unit_vec_of_parallel, Vec3};

verus! {

/// The scalar one.
pub open spec fn one() -> Scalar {
    Scalar { raw: SCALE }
}

/// The scalar one half.
pub open spec fn half() -> Scalar {
    Scalar { raw: 500_000_000_000_000 }
}

/// The scalar minus one.
pub open spec fn minus_one() -> Scalar {
    one().spec_neg()
}

/// The color at the bottom of the gradient: `(1, 1, 1)`.
pub open spec fn white() -> Color {
    Vec3 { x: one(), y: one(), z: one() }
}

/// The color at the top of the gradient: `(0.5, 0.7, 1)`.
pub open spec fn blue() -> Color {
    Vec3 { x: half(), y: Scalar { raw: 700_000_000_000_000 }, z: one() }
}

/// The weight of blue for a normalized direction whose vertical component is
/// `unit_y`: `(unit_y + 1) * 0.5`.
pub open spec fn blend_weight(unit_y: Scalar) -> Scalar {
    unit_y.spec_add(one()).spec_mul(half())
}

/// The color between white and blue at weight `a`:
/// `(1 - a) * white + a * blue`.
pub open spec fn blend(a: Scalar) -> Color {
    white().spec_mul_scalar(one().spec_sub(a)).spec_add(blue().spec_mul_scalar(a))
}

/// The background color seen along `direction`.
pub open spec fn sky_color(direction: Vec3) -> Color
    recommends
        !direction.is_zero(),
{
    blend(blend_weight(Vec3::spec_unit_vec(direction).y))
}

/// Whether `s` lies between minus one and one.
pub open spec fn is_unit_range(s: Scalar) -> bool {
    -SCALE <= s.raw <= SCALE
}

/// The weight of a vertical component between minus one and one is half the
/// component's distance from minus one, and lies between zero and one.
pub proof fn lemma_blend_weight(unit_y: Scalar)
    requires
        is_unit_range(unit_y),
    ensures
        unit_y.can_add(one()),
        unit_y.spec_add(one()).can_mul(half()),
        blend_weight(unit_y).raw == (unit_y.raw + SCALE) / 2,
        is_fraction(blend_weight(unit_y)),
{
    lemma_mul_by_fraction(unit_y.spec_add(one()), half(), 1, 2);
}

/// The channels of the blend at a weight between zero and one: red falls
/// from one to a half, green from one to seven tenths, and blue stays at
/// one. Each is an intensity between zero and one, so the color can be
/// displayed.
pub proof fn lemma_blend(a: Scalar)
    requires
        is_fraction(a),
    ensures
        one().can_sub(a),
        white().can_mul_scalar(one().spec_sub(a)),
        blue().can_mul_scalar(a),
        white().spec_mul_scalar(one().spec_sub(a)).can_add(blue().spec_mul_scalar(a)),
        blend(a).x.raw == SCALE - a.raw + a.raw / 2,
        blend(a).y.raw == SCALE - a.raw + (7 * a.raw) / 10,
        blend(a).z.raw == SCALE,
        is_fraction(blend(a).x),
        is_fraction(blend(a).y),
        is_fraction(blend(a).z),
        is_displayable(blend(a)),
{
    let rest = one().spec_sub(a);
    let seven_tenths = Scalar { raw: 700_000_000_000_000 };
    assert(one().mul_raw(rest) == rest.raw) by {
        lemma_mul_commutative(one(), rest);
        lemma_mul_by_fraction(rest, one(), 1, 1);
    }
    assert(half().mul_raw(a) == a.raw / 2) by {
        lemma_mul_commutative(half(), a);
        lemma_mul_by_fraction(a, half(), 1, 2);
    }
    assert(seven_tenths.mul_raw(a) == (7 * a.raw) / 10) by {
        lemma_mul_commutative(seven_tenths, a);
        lemma_mul_by_fraction(a, seven_tenths, 7, 10);
    }
    assert(one().mul_raw(a) == a.raw) by {
        lemma_mul_commutative(one(), a);
        lemma_mul_by_fraction(a, one(), 1, 1);
    }
    lemma_fraction_is_displayable(blend(a).x);
    lemma_fraction_is_displayable(blend(a).y);
    lemma_fraction_is_displayable(blend(a).z);
}

/// The blend follows its formula to within a raw unit. With `y` the vertical
/// component of the normalized direction, red is `(3 - y) / 4` and green
/// `(17 - 3 * y) / 20`: four times red misses `3 - y` by at most two raw
/// units, twenty times green misses `17 - 3 * y` by at most eighteen, and
/// blue is one.
pub proof fn lemma_blend_follows_formula(unit_y: Scalar)
    requires
        is_unit_range(unit_y),
    ensures
        3 * SCALE - unit_y.raw - 2 <= 4 * blend(blend_weight(unit_y)).x.raw <= 3 * SCALE
            - unit_y.raw + 1,
        17 * SCALE - 3 * unit_y.raw - 18 <= 20 * blend(blend_weight(unit_y)).y.raw <= 17 * SCALE
            - 3 * unit_y.raw + 3,
        blend(blend_weight(unit_y)).z.raw == SCALE,
{
    lemma_blend_weight(unit_y);
    lemma_blend(blend_weight(unit_y));
}

/// The gradient is monotonic. As the vertical component of the normalized
/// direction grows from minus one to one, the weight of blue grows from zero
/// to one, red and green do not grow, and the blue channel stays at one.
/// Rounding can make two components that are less than eight raw units apart
/// share a color; from eight raw units on, red and green fall strictly.
pub proof fn lemma_gradient_monotonic(y1: Scalar, y2: Scalar)
    requires
        is_unit_range(y1),
        is_unit_range(y2),
        y1.raw <= y2.raw,
    ensures
        0 <= blend_weight(y1).raw <= blend_weight(y2).raw <= SCALE,
        blend(blend_weight(y1)).x.raw >= blend(blend_weight(y2)).x.raw,
        blend(blend_weight(y1)).y.raw >= blend(blend_weight(y2)).y.raw,
        blend(blend_weight(y1)).z.raw == SCALE,
        blend(blend_weight(y2)).z.raw == SCALE,
        y1.raw + 8 <= y2.raw ==> blend(blend_weight(y1)).x.raw > blend(blend_weight(y2)).x.raw,
        y1.raw + 8 <= y2.raw ==> blend(blend_weight(y1)).y.raw > blend(blend_weight(y2)).y.raw,
{
    lemma_blend_weight(y1);
    lemma_blend_weight(y2);
    lemma_blend(blend_weight(y1));
    lemma_blend(blend_weight(y2));
}

/// The color depends on the direction alone, not on its length: two
/// directions that point the same way, `p` times the one being `q` times the
/// other for positive whole `p` and `q`, have the same color.
pub proof fn lemma_sky_color_of_parallel(v: Vec3, w: Vec3, p: int, q: int)
    requires
        0 < p,
        0 < q,
        !v.is_zero(),
        p * v.x.raw == q * w.x.raw,
        p * v.y.raw == q * w.y.raw,
        p * v.z.raw == q * w.z.raw,
    ensures
        !w.is_zero(),
        sky_color(v) == sky_color(w),
{
    lemma_unit_vec_of_parallel(v, w, p, q);
}

/// The gradient runs from pure white, straight down, to pure blue, straight
/// up.
pub proof fn lemma_gradient_ends()
    ensures
        blend_weight(minus_one()).raw == 0,
        blend(blend_weight(minus_one())) == white(),
        blend_weight(one()).raw == SCALE,
        blend(blend_weight(one())) == blue(),
{
    lemma_blend_weight(minus_one());
    lemma_blend_weight(one());
    lemma_blend(blend_weight(minus_one()));
    lemma_blend(blend_weight(one()));
}

/// The color of the background seen along the ray `r`, whose direction must
/// not be the zero vector.
pub fn get_ray_color(r: Ray) -> (c: Color)
    requires
        !r.direction().is_zero(),
    ensures
        c == sky_color(r.direction()),
        is_displayable(c),
{
    let unit_direction = Vec3::unit_vec(r.direction());
    let one = Scalar::from_int(1);
    let half = Scalar::from_raw(500_000_000_000_000);
    proof {
        lemma_unit_components(r.direction());
        lemma_blend_weight(unit_direction.y);
        lemma_blend(blend_weight(unit_direction.y));
    }
    let a = unit_direction.y().add(one).mul(half);

    let white = Color::new(one, one, one);
    let blue = Color::new(half, Scalar::from_raw(700_000_000_000_000), one);

    white.mul_scalar(one.sub(a)).add(blue.mul_scalar(a))
}

} // verus!
