use raytracer::scalar::Scalar;
use raytracer::vec3::{Point3, Vec3};

fn v(x: i64, y: i64, z: i64) -> Vec3 {
    Vec3::new(Scalar::from_raw(x), Scalar::from_raw(y), Scalar::from_raw(z))
}

fn whole(x: i32, y: i32, z: i32) -> Vec3 {
    Vec3::new(Scalar::from_int(x), Scalar::from_int(y), Scalar::from_int(z))
}

#[test]
fn accessors_return_the_components() {
    let p: Point3 = v(1, -2, 3);
    assert_eq!(p.x().raw, 1);
    assert_eq!(p.y().raw, -2);
    assert_eq!(p.z().raw, 3);
}

#[test]
fn operations_leave_their_operands_alone() {
    let a = whole(1, 2, 3);
    let b = whole(4, 5, 6);
    let _ = a.add(b);
    let _ = a.sub(b);
    let _ = a.neg();
    let _ = a.mul_scalar(Scalar::from_int(9));
    assert_eq!(a, whole(1, 2, 3));
    assert_eq!(b, whole(4, 5, 6));
}

#[test]
fn addition_and_subtraction_work_by_component() {
    assert_eq!(whole(1, 2, 3).add(whole(10, -20, 30)), whole(11, -18, 33));
    assert_eq!(whole(1, 2, 3).sub(whole(10, -20, 30)), whole(-9, 22, -27));
    assert_eq!(whole(1, -2, 0).neg(), whole(-1, 2, 0));
}

#[test]
fn adding_then_subtracting_gives_back_the_vector() {
    let a = v(123_456_789, -987_654_321, 5);
    let b = v(-1, 4_000_000_000_000_000_000, 777);
    assert_eq!(a.add(b).sub(b), a);
    assert_eq!(b.add(a).sub(a), b);
}

#[test]
fn addition_is_commutative_and_associative() {
    let a = v(123_456_789, -987_654_321, 5);
    let b = v(-1, 4_000_000_000_000_000_000, 777);
    let c = v(i64::MAX / 4, i64::MIN / 4, -42);
    assert_eq!(a.add(b), b.add(a));
    assert_eq!(a.add(b).add(c), a.add(b.add(c)));
}

#[test]
fn scaling_multiplies_each_component() {
    let half = Scalar::from_raw(500_000_000_000_000);
    assert_eq!(
        whole(2, -4, 1).mul_scalar(half),
        v(1_000_000_000_000_000, -2_000_000_000_000_000, 500_000_000_000_000)
    );
    assert_eq!(v(3, -3, 1).mul_scalar(half), v(1, -1, 0));
}

#[test]
fn dividing_divides_each_component() {
    assert_eq!(
        whole(1, -1, 10).div_scalar(Scalar::from_int(3)),
        v(333_333_333_333_333, -333_333_333_333_333, 3_333_333_333_333_333)
    );
}

#[test]
fn scaling_then_dividing_gives_back_the_vector_up_to_rounding() {
    let a = v(123_456_789_012_345, -987_654_321_098_765, 5);
    let s = Scalar::from_raw(3_000_000_000_000_007);
    let back = a.mul_scalar(s).div_scalar(s);
    assert_eq!(back, v(123_456_789_012_344, -987_654_321_098_764, 4));
    let whole_factor = Scalar::from_int(-7);
    assert_eq!(a.mul_scalar(whole_factor).div_scalar(whole_factor), a);
}

#[test]
fn length_of_a_three_four_five_triangle() {
    let a = whole(3, 4, 0);
    assert_eq!(a.length(), Scalar::from_int(5));
    assert_eq!(a.length_squared(), Scalar::from_int(25));
    assert_eq!(whole(0, 0, -2).length(), Scalar::from_int(2));
}

#[test]
fn length_rounds_down() {
    // sqrt(3) = 1.7320508075688...
    assert_eq!(whole(1, 1, 1).length().raw, 1_732_050_807_568_877);
    assert_eq!(whole(1, 1, 1).length_squared(), Scalar::from_int(3));
    // The square of a length below the resolution is not lost to the root.
    assert_eq!(v(3, 4, 0).length().raw, 5);
    assert_eq!(v(3, 4, 0).length_squared().raw, 0);
    assert_eq!(v(0, 0, 0).length().raw, 0);
}

#[test]
fn length_of_the_largest_components() {
    // sqrt(2) * 2^62 = 6521908912666391106.4...
    let big = v(1 << 62, -(1 << 62), 0);
    assert_eq!(big.length().raw, 6_521_908_912_666_391_106);
}

#[test]
fn unit_vec_scales_to_length_one() {
    assert_eq!(Vec3::unit_vec(whole(3, 4, 0)), v(600_000_000_000_000, 800_000_000_000_000, 0));
    assert_eq!(Vec3::unit_vec(whole(0, -5, 0)), v(0, -1_000_000_000_000_000, 0));
    assert_eq!(Vec3::unit_vec(whole(3, 4, 0)).length(), Scalar::from_int(1));
    let diagonal = Vec3::unit_vec(whole(1, 1, 1));
    assert_eq!(diagonal, v(577_350_269_189_625, 577_350_269_189_625, 577_350_269_189_625));
    assert_eq!(diagonal.length().raw, 999_999_999_999_998);
}

#[test]
fn unit_vec_of_the_largest_components() {
    let big = v(i64::MIN, i64::MIN, i64::MIN);
    assert_eq!(
        Vec3::unit_vec(big),
        v(-577_350_269_189_625, -577_350_269_189_625, -577_350_269_189_625)
    );
    let axis = v(0, i64::MAX, 0);
    assert_eq!(Vec3::unit_vec(axis), v(0, 1_000_000_000_000_000, 0));
}

#[test]
fn unit_vec_of_the_shortest_vectors() {
    // The direction counts, however short the vector: (1, 1, 0) raw units
    // normalize as (1, 1, 0) whole units do.
    let diagonal = v(707_106_781_186_547, 707_106_781_186_547, 0);
    assert_eq!(Vec3::unit_vec(v(1, 1, 0)), diagonal);
    assert_eq!(Vec3::unit_vec(v(1_000_000, 1_000_000, 0)), diagonal);
    assert_eq!(Vec3::unit_vec(whole(1, 1, 0)), diagonal);
    assert_eq!(diagonal.length().raw, 999_999_999_999_999);
    assert_eq!(Vec3::unit_vec(v(0, 0, -1)), v(0, 0, -1_000_000_000_000_000));
    assert_eq!(
        Vec3::unit_vec(v(7, -3, 2)),
        v(889_000_889_001_333, -381_000_381_000_571, 254_000_254_000_381)
    );
}

#[test]
fn unit_vec_does_not_depend_on_the_length() {
    let directions = [(3, 4, 0), (1, 1, 1), (-2, 5, 7), (0, -1, 9), (12, -5, 0)];
    for (x, y, z) in directions {
        let expected = Vec3::unit_vec(v(x, y, z));
        let mut scale: i64 = 10;
        while scale <= 100_000_000_000_000_000 {
            assert_eq!(Vec3::unit_vec(v(x * scale, y * scale, z * scale)), expected);
            scale *= 10;
        }
    }
}

/// The raw length of `v`, by a square root taken here rather than by the
/// library.
fn raw_length(v: &Vec3) -> i128 {
    let n: u128 = [v.x.raw, v.y.raw, v.z.raw]
        .iter()
        .map(|c| (*c as i128 * *c as i128) as u128)
        .sum();
    let mut lo: u128 = 0;
    let mut hi: u128 = 1 << 64;
    while hi - lo > 1 {
        let mid = lo + (hi - lo) / 2;
        if mid * mid <= n {
            lo = mid;
        } else {
            hi = mid;
        }
    }
    lo as i128
}

#[test]
fn unit_vec_length_stays_within_the_stated_tolerance() {
    let samples = [
        v(1, 0, 0),
        v(1, 1, 0),
        v(1, 1, 1),
        v(7, -3, 2),
        v(1_000, 1_000, 1_000),
        v(1_000_000, 1_000_000, 0),
        v(-1_773_333_333_333_333, 995_555_555_555_556, -1_000_000_000_000_000),
        v(123_456_789_012, -5, 99_999),
        v(i64::MAX, i64::MAX, i64::MAX),
        v(i64::MIN, i64::MIN, i64::MIN),
        v(i64::MIN, 1, -1),
    ];
    let one: i128 = 1_000_000_000_000_000;
    for s in samples {
        let unit_len = raw_length(&Vec3::unit_vec(s));
        assert!(one - 4 <= unit_len && unit_len <= one);
    }
}

#[test]
fn whole_multiples_and_parts_of_a_vector() {
    let step = v(8_888_888_888_888, -8_888_888_888_888, 3);
    assert_eq!(step.mul_int(399), v(3_546_666_666_666_312, -3_546_666_666_666_312, 1_197));
    assert_eq!(step.mul_int(0), v(0, 0, 0));
    assert_eq!(step.div_int(2), v(4_444_444_444_444, -4_444_444_444_444, 1));
    assert_eq!(whole(1, -1, 10).div_int(3), whole(1, -1, 10).div_scalar(Scalar::from_int(3)));
}

#[test]
fn checked_vector_operations_stop_at_the_ends_of_the_range() {
    let far = v(i64::MAX, 0, i64::MIN);
    assert_eq!(far.checked_add(v(0, 5, 0)), Some(v(i64::MAX, 5, i64::MIN)));
    assert_eq!(far.checked_add(v(1, 0, 0)), None);
    assert_eq!(far.checked_add(v(0, 0, -1)), None);
    assert_eq!(far.checked_sub(v(-1, 0, 0)), None);
    assert_eq!(far.checked_sub(v(0, 0, 1)), None);
    assert_eq!(far.checked_sub(v(1, 1, -1)), Some(v(i64::MAX - 1, -1, i64::MIN + 1)));
    assert_eq!(far.checked_mul_int(1), Some(far));
    assert_eq!(far.checked_mul_int(2), None);
    assert_eq!(v(1, 2, -3).checked_mul_int(u32::MAX), Some(v(4_294_967_295, 8_589_934_590, -12_884_901_885)));
}
