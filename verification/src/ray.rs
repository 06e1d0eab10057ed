//! Rays: a starting point and a direction of travel.

use vstd::prelude::*;
use crate::scalar::{
    lemma_mul_by_int, lemma_mul_then_mul_by_reciprocal, recovers_by_reciprocal, Scalar,
};
use crate::vec3::{Point3, Vec3};

verus! {

/// A half-line in space. The direction is kept as given; it need not have
/// unit length.
pub struct Ray {
    orig: Point3,
    dir: Vec3,
}

impl Ray {
    /// The point the ray starts from.
    pub closed spec fn spec_origin(&self) -> Point3 {
        self.orig
    }

    /// The direction the ray travels in.
    pub closed spec fn spec_direction(&self) -> Vec3 {
        self.dir
    }

    /// The ray from `origin` along `direction`.
    pub closed spec fn spec_new(origin: Point3, direction: Vec3) -> Ray {
        Ray { orig: origin, dir: direction }
    }

    /// Whether the point at parameter `t` can be represented. The step
    /// from the origin to it need not be.
    pub open spec fn can_at(&self, t: Scalar) -> bool {
        &&& self.direction().x.can_mul_add(t, self.origin().x)
        &&& self.direction().y.can_mul_add(t, self.origin().y)
        &&& self.direction().z.can_mul_add(t, self.origin().z)
    }

    /// The point `origin + t * direction`.
    pub open spec fn spec_at(&self, t: Scalar) -> Point3
        recommends
            self.can_at(t),
    {
        Vec3 {
            x: self.direction().x.spec_mul_add(t, self.origin().x),
            y: self.direction().y.spec_mul_add(t, self.origin().y),
            z: self.direction().z.spec_mul_add(t, self.origin().z),
        }
    }

    /// Makes the ray from `origin` along `direction`.
    pub fn new(origin: Point3, direction: Vec3) -> (r: Ray)
        ensures
            r == Ray::spec_new(origin, direction),
            r.origin() == origin,
            r.direction() == direction,
    {
        Self { orig: origin, dir: direction }
    }

    #[verifier::when_used_as_spec(spec_origin)]
    pub fn origin(&self) -> (p: Point3)
        ensures
            p == self.origin(),
    {
        self.orig
    }

    #[verifier::when_used_as_spec(spec_direction)]
    pub fn direction(&self) -> (d: Vec3)
        ensures
            d == self.direction(),
    {
        self.dir
    }

    /// The point reached after travelling `t` times the direction.
    pub fn at(&self, t: Scalar) -> (p: Point3)
        requires
            self.can_at(t),
        ensures
            p == self.spec_at(t),
    {
        Vec3::new(
            self.dir.x.mul_add(t, self.orig.x),
            self.dir.y.mul_add(t, self.orig.y),
            self.dir.z.mul_add(t, self.orig.z),
        )
    }
}

/// Where the step itself is representable, the point at parameter `t` is
/// the origin plus the direction scaled by `t`.
pub proof fn lemma_at_is_origin_plus_step(origin: Point3, direction: Vec3, t: Scalar)
    requires
        direction.can_mul_scalar(t),
        origin.can_add(direction.spec_mul_scalar(t)),
    ensures
        Ray::spec_new(origin, direction).can_at(t),
        Ray::spec_new(origin, direction).spec_at(t) == origin.spec_add(
            direction.spec_mul_scalar(t),
        ),
{
}

/// A ray is made of its origin and its direction, and of nothing else.
pub proof fn lemma_ray_parts(origin: Point3, direction: Vec3)
    ensures
        Ray::spec_new(origin, direction).origin() == origin,
        Ray::spec_new(origin, direction).direction() == direction,
{
}

/// The point at parameter one is the origin plus the direction, wherever
/// that sum is representable.
pub proof fn lemma_at_one(a: Point3, b: Vec3)
    requires
        a.can_add(b),
    ensures
        Ray::spec_new(a, b).can_at(Scalar::spec_from_int(1)),
        Ray::spec_new(a, b).spec_at(Scalar::spec_from_int(1)) == a.spec_add(b),
{
    lemma_mul_by_int(b.x, 1);
    lemma_mul_by_int(b.y, 1);
    lemma_mul_by_int(b.z, 1);
}

/// Going on by a vector and back by the same vector returns to the start:
/// from `a`, the point at parameter one along `b` and from there the point
/// at parameter minus one along `b` is `a` again, exactly, wherever the point
/// in between is representable.
pub proof fn lemma_there_and_back(a: Point3, b: Vec3)
    requires
        a.can_add(b),
    ensures
        Ray::spec_new(a.spec_add(b), b).can_at(Scalar::spec_from_int(-1)),
        Ray::spec_new(
            Ray::spec_new(a, b).spec_at(Scalar::spec_from_int(1)),
            b,
        ).spec_at(Scalar::spec_from_int(-1)) == a,
{
    lemma_at_one(a, b);
    lemma_mul_by_int(b.x, -1);
    lemma_mul_by_int(b.y, -1);
    lemma_mul_by_int(b.z, -1);
}

/// Origin and direction can change places: the point at parameter one is
/// the sum of the two, and a sum does not depend on the order.
pub proof fn lemma_at_one_commutes(a: Vec3, b: Vec3)
    requires
        a.can_add(b),
    ensures
        Ray::spec_new(a, b).spec_at(Scalar::spec_from_int(1)) == Ray::spec_new(b, a).spec_at(
            Scalar::spec_from_int(1),
        ),
{
    lemma_at_one(a, b);
    lemma_at_one(b, a);
}

/// The point all coordinates of which are zero.
pub open spec fn zero_point() -> Point3 {
    Vec3 { x: Scalar { raw: 0 }, y: Scalar { raw: 0 }, z: Scalar { raw: 0 } }
}

/// Scaling by a scalar and then by its reciprocal, where that is
/// representable, gives back the vector started from, each component up to
/// the rounding of the three steps: from the zero point, the point at parameter `s` along `a`, taken as
/// a direction in its turn and followed to the parameter `1 / s`.
pub proof fn lemma_scale_and_back(a: Vec3, s: Scalar)
    requires
        a.can_mul_scalar(s),
        Scalar::spec_from_int(1).can_div(s),
    ensures
        Ray::spec_new(zero_point(), a).can_at(s),
        Ray::spec_new(zero_point(), Ray::spec_new(zero_point(), a).spec_at(s)).can_at(
            Scalar::spec_from_int(1).spec_div(s),
        ),
        recovers_by_reciprocal(
            a.x,
            s,
            Ray::spec_new(zero_point(), Ray::spec_new(zero_point(), a).spec_at(s)).spec_at(
                Scalar::spec_from_int(1).spec_div(s),
            ).x,
        ),
        recovers_by_reciprocal(
            a.y,
            s,
            Ray::spec_new(zero_point(), Ray::spec_new(zero_point(), a).spec_at(s)).spec_at(
                Scalar::spec_from_int(1).spec_div(s),
            ).y,
        ),
        recovers_by_reciprocal(
            a.z,
            s,
            Ray::spec_new(zero_point(), Ray::spec_new(zero_point(), a).spec_at(s)).spec_at(
                Scalar::spec_from_int(1).spec_div(s),
            ).z,
        ),
{
    lemma_mul_then_mul_by_reciprocal(a.x, s);
    lemma_mul_then_mul_by_reciprocal(a.y, s);
    lemma_mul_then_mul_by_reciprocal(a.z, s);
    assert(Ray::spec_new(zero_point(), a).spec_at(s) == a.spec_mul_scalar(s));
}

} // verus!
