use raytracer::color::write_color;
use raytracer::gradient::get_ray_color;
use raytracer::ray::Ray;
use raytracer::scalar::Scalar;
use raytracer::vec3::Vec3;

fn v(x: i64, y: i64, z: i64) -> Vec3 {
    Vec3::new(Scalar::from_raw(x), Scalar::from_raw(y), Scalar::from_raw(z))
}

fn sky(direction: Vec3) -> Vec3 {
    get_ray_color(Ray::new(v(0, 0, 0), direction))
}

fn line_for(c: Vec3) -> String {
    let mut out: Vec<u8> = Vec::new();
    write_color(&mut out, c);
    String::from_utf8(out).unwrap()
}

const ONE: i64 = 1_000_000_000_000_000;

#[test]
fn black_is_written_as_zeros() {
    assert_eq!(line_for(v(0, 0, 0)), "0 0 0\n");
}

#[test]
fn white_is_written_as_255() {
    assert_eq!(line_for(v(ONE, ONE, ONE)), "255 255 255\n");
}

#[test]
fn half_grey_truncates_to_127() {
    // 255.999 * 0.5 = 127.9995
    assert_eq!(line_for(v(ONE / 2, ONE / 2, ONE / 2)), "127 127 127\n");
}

#[test]
fn channels_are_written_in_order_with_single_spaces() {
    // 255.999 * 0.25 = 63.99975, 255.999 * 0.75 = 191.99925
    assert_eq!(line_for(v(ONE / 4, 3 * (ONE / 4), ONE)), "63 191 255\n");
    assert_eq!(line_for(v(ONE, 0, ONE / 25)), "255 0 10\n");
}

#[test]
fn levels_change_exactly_at_the_boundary() {
    // 100 / 255.999 = 0.390626525884866...
    assert_eq!(line_for(v(390_626_525_884_866, 390_626_525_884_867, 0)), "99 100 0\n");
    // The last intensity above one whose level is still 255, and the first
    // below zero whose level is still 0.
    assert_eq!(
        line_for(v(1_000_003_906_265_258, -3_906_265_258_848, 3_906_265_258_849)),
        "255 0 1\n"
    );
}

#[test]
fn write_color_appends_to_what_is_there() {
    let mut out: Vec<u8> = b"P3\n".to_vec();
    write_color(&mut out, v(0, ONE, 0));
    write_color(&mut out, v(ONE, 0, 0));
    assert_eq!(out, b"P3\n0 255 0\n255 0 0\n".to_vec());
}

#[test]
fn straight_up_is_pure_blue() {
    assert_eq!(sky(v(0, ONE, 0)), v(ONE / 2, 7 * (ONE / 10), ONE));
    assert_eq!(sky(v(0, 7, 0)), v(ONE / 2, 7 * (ONE / 10), ONE));
}

#[test]
fn straight_down_is_pure_white() {
    assert_eq!(sky(v(0, -ONE, 0)), v(ONE, ONE, ONE));
}

#[test]
fn level_direction_is_halfway() {
    assert_eq!(sky(v(ONE, 0, -ONE)), v(750_000_000_000_000, 850_000_000_000_000, ONE));
    assert_eq!(sky(v(0, 0, -5 * ONE)), v(750_000_000_000_000, 850_000_000_000_000, ONE));
}

#[test]
fn diagonal_direction_has_the_expected_color() {
    // unit y = 0.707106781186547, a = 0.853553390593273
    assert_eq!(sky(v(0, ONE, -ONE)), v(573_223_304_703_363, 743_933_982_822_018, ONE));
}

#[test]
fn color_depends_on_the_direction_not_its_length() {
    assert_eq!(sky(v(3 * ONE, 4 * ONE, 0)), sky(v(6 * ONE, 8 * ONE, 0)));
    // Down to the shortest vectors: (1, 1, 0) raw units, of length 1.4
    // raw units, is colored as (1, 1, 0) whole units.
    let diagonal = v(573_223_304_703_363, 743_933_982_822_018, ONE);
    assert_eq!(sky(v(ONE, ONE, 0)), diagonal);
    assert_eq!(sky(v(1, 1, 0)), diagonal);
    assert_eq!(sky(v(1_000_000, 1_000_000, 0)), diagonal);
    assert_eq!(line_for(sky(v(1, 1, 0))), "146 190 255\n");
}

#[test]
fn red_and_green_fall_as_the_direction_rises() {
    let mut last = sky(v(0, -ONE, -ONE / 1000));
    for step in -99..=100 {
        let c = sky(v(0, step * (ONE / 100), -ONE));
        assert!(c.x.raw < last.x.raw);
        assert!(c.y.raw < last.y.raw);
        assert_eq!(c.z.raw, ONE);
        assert!(c.x.raw >= ONE / 2 && c.y.raw >= 7 * (ONE / 10));
        last = c;
    }
}

#[test]
fn directions_closer_than_the_resolution_may_share_a_color() {
    // The unit y components are 0 and 1 raw units; both weights are
    // 0.5 exactly.
    assert_eq!(sky(v(ONE, 0, 0)), sky(v(ONE, 1, 0)));
}
