use raytracer::ray::Ray;
use raytracer::scalar::Scalar;
use raytracer::vec3::Vec3;

fn whole(x: i32, y: i32, z: i32) -> Vec3 {
    Vec3::new(Scalar::from_int(x), Scalar::from_int(y), Scalar::from_int(z))
}

#[test]
fn ray_keeps_origin_and_direction_as_given() {
    let r = Ray::new(whole(1, 2, 3), whole(0, 0, -10));
    assert_eq!(r.origin(), whole(1, 2, 3));
    // The direction is not normalized.
    assert_eq!(r.direction(), whole(0, 0, -10));
}

#[test]
fn ray_at_walks_along_the_direction() {
    let r = Ray::new(whole(1, 2, 3), whole(2, 0, -4));
    assert_eq!(r.at(Scalar::from_int(0)), whole(1, 2, 3));
    assert_eq!(r.at(Scalar::from_int(1)), whole(3, 2, -1));
    assert_eq!(r.at(Scalar::from_int(-2)), whole(-3, 2, 11));
    assert_eq!(
        r.at(Scalar::from_raw(250_000_000_000_000)),
        Vec3::new(Scalar::from_raw(1_500_000_000_000_000), Scalar::from_int(2), Scalar::from_int(2))
    );
}

#[test]
fn going_on_and_back_returns_to_the_start() {
    let a = Vec3::new(Scalar::from_raw(123_456_789), Scalar::from_raw(-5), Scalar::from_int(7));
    let b = Vec3::new(Scalar::from_raw(-1), Scalar::from_raw(i64::MAX / 2), Scalar::from_int(-9));
    let there = Ray::new(a, b).at(Scalar::from_int(1));
    assert_eq!(there, a.add(b));
    assert_eq!(Ray::new(there, b).at(Scalar::from_int(-1)), a);
}

#[test]
fn going_on_and_back_along_the_longest_direction() {
    // The direction cannot be negated, and the step back is out of reach;
    // the points are not.
    let a = Vec3::new(Scalar::from_raw(10), Scalar::from_raw(i64::MAX), Scalar::from_raw(-1));
    let b = Vec3::new(Scalar::from_raw(i64::MIN), Scalar::from_raw(i64::MIN), Scalar::from_raw(0));
    let there = Ray::new(a, b).at(Scalar::from_int(1));
    assert_eq!(
        there,
        Vec3::new(Scalar::from_raw(i64::MIN + 10), Scalar::from_raw(-1), Scalar::from_raw(-1))
    );
    assert_eq!(Ray::new(there, b).at(Scalar::from_int(-1)), a);
}

#[test]
fn origin_and_direction_can_change_places_at_parameter_one() {
    let a = Vec3::new(Scalar::from_raw(123_456_789), Scalar::from_raw(-5), Scalar::from_int(7));
    let b = Vec3::new(Scalar::from_raw(-1), Scalar::from_raw(i64::MAX / 2), Scalar::from_int(-9));
    let one = Scalar::from_int(1);
    assert_eq!(Ray::new(a, b).at(one), Ray::new(b, a).at(one));
}

#[test]
fn scaling_and_scaling_back_by_the_reciprocal() {
    let zero = whole(0, 0, 0);
    let one = Scalar::from_int(1);
    // A reciprocal that is exact loses nothing.
    let a = Vec3::new(Scalar::from_int(2), Scalar::from_int(-7), Scalar::from_raw(5));
    let s = Scalar::from_int(4);
    let there = Ray::new(zero, a).at(s);
    assert_eq!(there, Vec3::new(Scalar::from_int(8), Scalar::from_int(-28), Scalar::from_raw(20)));
    assert_eq!(Ray::new(zero, there).at(one.div(s)), a);
    // One that is rounded loses a little: 1 / 3.000000000000007 is
    // 0.333333333333332...
    let a = Vec3::new(
        Scalar::from_raw(123_456_789_012_345),
        Scalar::from_raw(-987_654_321_098_765),
        Scalar::from_raw(5),
    );
    let s = Scalar::from_raw(3_000_000_000_000_007);
    assert_eq!(one.div(s), Scalar::from_raw(333_333_333_333_332));
    let there = Ray::new(zero, a).at(s);
    let back = Ray::new(zero, there).at(one.div(s));
    assert_eq!(
        back,
        Vec3::new(
            Scalar::from_raw(123_456_789_012_344),
            Scalar::from_raw(-987_654_321_098_763),
            Scalar::from_raw(4)
        )
    );
}
