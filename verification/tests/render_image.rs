use raytracer::camera::{image_height, Camera};
use raytracer::config::RenderConfig;
use raytracer::driver::{render_image, Renderer};
use raytracer::gradient::get_ray_color;
use raytracer::render::{
    render, render_hello_world_image, write_header, write_scanline, write_test_card_row,
    TEST_CARD_SIZE,
};
use raytracer::scalar::Scalar;
use raytracer::vec3::Vec3;

fn origin() -> Vec3 {
    Vec3::new(Scalar::from_raw(0), Scalar::from_raw(0), Scalar::from_raw(0))
}

fn default_camera() -> Camera {
    let aspect_ratio = Scalar::from_int(16).div(Scalar::from_int(9));
    let height = image_height(400, aspect_ratio).unwrap();
    Camera::new(400, height, Scalar::from_int(1), Scalar::from_int(2), origin()).unwrap()
}

/// The 64-bit FNV-1a hash of `data`.
fn fingerprint(data: &[u8]) -> u64 {
    let mut h: u64 = 0xcbf2_9ce4_8422_2325;
    for b in data {
        h ^= *b as u64;
        h = h.wrapping_mul(0x0000_0100_0000_01b3);
    }
    h
}

#[test]
fn header_has_three_lines() {
    let mut out: Vec<u8> = Vec::new();
    write_header(&mut out, 400, 225);
    assert_eq!(out, b"P3\n400 225\n255\n".to_vec());
    let mut out: Vec<u8> = Vec::new();
    write_header(&mut out, 0, u32::MAX);
    assert_eq!(out, b"P3\n0 4294967295\n255\n".to_vec());
}

#[test]
fn default_image_has_header_and_one_line_per_pixel() {
    let image = render(&default_camera());
    let text = String::from_utf8(image).unwrap();
    let lines: Vec<&str> = text.split('\n').collect();
    // The text ends with a line feed, so the last piece is empty.
    assert_eq!(lines.len(), 3 + 400 * 225 + 1);
    assert_eq!(lines[0], "P3");
    assert_eq!(lines[1], "400 225");
    assert_eq!(lines[2], "255");
    assert_eq!(lines[lines.len() - 1], "");
    for line in &lines[3..lines.len() - 1] {
        let levels: Vec<u32> = line.split(' ').map(|n| n.parse().unwrap()).collect();
        assert_eq!(levels.len(), 3);
        assert!(levels.iter().all(|l| *l <= 255));
    }
}

#[test]
fn default_image_pixels() {
    let image = render(&default_camera());
    let text = String::from_utf8(image).unwrap();
    let lines: Vec<&str> = text.lines().collect();
    let pixel = |col: usize, row: usize| lines[3 + row * 400 + col];
    assert_eq!(pixel(0, 0), "163 200 255");
    assert_eq!(pixel(399, 0), "163 200 255");
    assert_eq!(pixel(200, 112), "191 217 255");
    assert_eq!(pixel(0, 224), "220 234 255");
    assert_eq!(pixel(399, 224), "220 234 255");
}

#[test]
fn default_image_matches_its_fingerprint() {
    let image = render(&default_camera());
    assert_eq!(image.len(), 1_080_015);
    assert_eq!(fingerprint(&image), 2_485_169_797_555_714_091);
}

#[test]
fn small_image_text() {
    let camera = Camera::new(4, 2, Scalar::from_int(1), Scalar::from_int(2), origin()).unwrap();
    let expected = "P3\n4 2\n255\n\
        174 207 255\n165 201 255\n165 201 255\n174 207 255\n\
        209 227 255\n218 233 255\n218 233 255\n209 227 255\n";
    assert_eq!(String::from_utf8(render(&camera)).unwrap(), expected);
}

#[test]
fn image_of_a_camera_off_the_origin() {
    let center = Vec3::new(
        Scalar::from_int(1),
        Scalar::from_int(-2),
        Scalar::from_raw(500_000_000_000_000),
    );
    let focal_length = Scalar::from_raw(1_500_000_000_000_000);
    let camera = Camera::new(3, 2, focal_length, Scalar::from_int(3), center).unwrap();
    let expected = "P3\n3 2\n255\n\
        170 204 255\n163 200 255\n170 204 255\n\
        213 230 255\n220 234 255\n213 230 255\n";
    assert_eq!(String::from_utf8(render(&camera)).unwrap(), expected);
}

#[test]
fn scanlines_in_order_make_the_image() {
    let camera = Camera::new(7, 5, Scalar::from_int(1), Scalar::from_int(2), origin()).unwrap();
    let mut out: Vec<u8> = Vec::new();
    write_header(&mut out, camera.image_width, camera.image_height);
    for row in 0..camera.image_height {
        let before = out.len();
        write_scanline(&mut out, &camera, row);
        let added = String::from_utf8(out[before..].to_vec()).unwrap();
        assert_eq!(added.lines().count(), 7);
    }
    assert_eq!(out, render(&camera));
}

#[test]
fn rendering_twice_gives_identical_bytes() {
    let first = render(&default_camera());
    let second = render(&default_camera());
    assert_eq!(first, second);
}

#[test]
fn left_column_runs_from_most_blue_to_most_white() {
    let camera = default_camera();
    let weight_of_red = |row: u32| get_ray_color(camera.ray_through(0, row)).x.raw;
    let top = weight_of_red(0);
    let bottom = weight_of_red(224);
    // Less red means more blue: the top row looks up, the bottom row down.
    for row in 1..224 {
        let here = weight_of_red(row);
        assert!(top < here && here < bottom);
        assert!(weight_of_red(row - 1) < here);
    }
    assert_eq!(top, 640_175_386_724_163);
    assert_eq!(bottom, 859_824_613_275_819);
    assert!(camera.ray_through(0, 0).direction().y.raw > 0);
    assert!(camera.ray_through(0, 224).direction().y.raw < 0);
}

#[test]
fn test_card_has_one_line_per_pixel() {
    let image = render_hello_world_image();
    let text = String::from_utf8(image).unwrap();
    let lines: Vec<&str> = text.lines().collect();
    assert_eq!(lines.len(), 3 + 256 * 256);
    assert_eq!(lines[0], "P3");
    assert_eq!(lines[1], "256 256");
    assert_eq!(lines[2], "255");
    for row in 0..256 {
        for col in 0..256 {
            assert_eq!(lines[3 + row * 256 + col], format!("{} {} 0", col, row));
        }
    }
}

#[test]
fn test_card_matches_its_fingerprint() {
    let image = render_hello_world_image();
    assert_eq!(image.len(), 599_055);
    assert_eq!(fingerprint(&image), 12_138_685_821_312_384_906);
}

#[test]
fn renderer_hands_out_the_rows_from_the_top() {
    let config = RenderConfig::default();
    let mut renderer = Renderer::start(&config).unwrap();
    let camera = renderer.camera();
    assert_eq!((camera.image_width, camera.image_height), (400, 225));
    assert_eq!(renderer.next_row(), 0);
    assert_eq!(renderer.rows_remaining(), 225);

    let mut out: Vec<u8> = Vec::new();
    write_header(&mut out, camera.image_width, camera.image_height);
    let mut rows = 0;
    while renderer.rows_remaining() > 0 {
        assert_eq!(renderer.next_row(), rows);
        assert!(renderer.write_next_scanline(&mut out));
        rows += 1;
    }
    assert_eq!(rows, 225);
    assert_eq!(out, render(&camera));
    assert_eq!(Some(out), render_image(&config));
}

#[test]
fn renderer_stops_after_the_last_row() {
    let config = RenderConfig {
        image_width: 3,
        aspect_ratio: Scalar::from_raw(1_500_000_000_000_000),
        viewport_height: Scalar::from_int(2),
        focal_length: Scalar::from_int(1),
        camera_center: origin(),
    };
    let mut renderer = Renderer::start(&config).unwrap();
    let mut out: Vec<u8> = Vec::new();
    assert!(renderer.write_next_scanline(&mut out));
    assert!(renderer.write_next_scanline(&mut out));
    let full = out.clone();
    assert_eq!(renderer.rows_remaining(), 0);
    assert!(!renderer.write_next_scanline(&mut out));
    assert_eq!(out, full);
    assert_eq!(renderer.next_row(), 2);
}

#[test]
fn standard_scene_parameters() {
    let config = RenderConfig::default();
    assert_eq!(config.image_width, 400);
    assert_eq!(config.aspect_ratio, Scalar::from_raw(1_777_777_777_777_777));
    assert_eq!(config.viewport_height, Scalar::from_int(2));
    assert_eq!(config.focal_length, Scalar::from_int(1));
    assert_eq!(config.camera_center, origin());
    assert_eq!(config.camera(), Some(default_camera()));
}

#[test]
fn parameters_out_of_range_give_no_image() {
    let mut config = RenderConfig::default();
    config.aspect_ratio = Scalar::from_raw(0);
    assert!(config.camera().is_none());
    assert!(render_image(&config).is_none());
    assert!(Renderer::start(&config).is_none());

    let mut config = RenderConfig::default();
    config.focal_length = Scalar::from_raw(0);
    assert!(render_image(&config).is_none());

    let mut config = RenderConfig::default();
    config.image_width = 0;
    assert!(render_image(&config).is_none());

    // One pixel wide, and so flat that the height is clamped to one row.
    let mut config = RenderConfig::default();
    config.image_width = 1;
    let image = render_image(&config).unwrap();
    assert_eq!(String::from_utf8(image).unwrap(), "P3\n1 1\n255\n191 217 255\n");
}

type Triple = (f64, f64, f64);

fn plus(a: Triple, b: Triple) -> Triple {
    (a.0 + b.0, a.1 + b.1, a.2 + b.2)
}

fn minus(a: Triple, b: Triple) -> Triple {
    (a.0 - b.0, a.1 - b.1, a.2 - b.2)
}

fn times(a: Triple, t: f64) -> Triple {
    (a.0 * t, a.1 * t, a.2 * t)
}

fn over(a: Triple, t: f64) -> Triple {
    (a.0 / t, a.1 / t, a.2 / t)
}

fn pixel_line_in_double_precision(color: Triple) -> String {
    let r = (255.999 * color.0) as u8;
    let g = (255.999 * color.1) as u8;
    let b = (255.999 * color.2) as u8;
    format!("{} {} {}\n", r, g, b)
}

/// The image of the standard scene as double-precision floating-point
/// arithmetic gives it, step for step.
fn standard_scene_in_double_precision() -> String {
    let aspect_ratio = 16.0 / 9.0;
    let image_width = 400;
    let mut image_height = (image_width as f64 / aspect_ratio) as i32;
    image_height = if image_height < 1 { 1 } else { image_height };

    let focal_length = 1.0;
    let viewport_height = 2.0;
    let viewport_width = viewport_height * (image_width as f64 / image_height as f64);
    let camera_center = (0.0, 0.0, 0.0);

    let viewport_u = (viewport_width, 0.0, 0.0);
    let viewport_v = (0.0, -viewport_height, 0.0);

    let pixel_delta_u = over(viewport_u, image_width as f64);
    let pixel_delta_v = over(viewport_v, image_height as f64);

    let viewport_upper_left = minus(
        minus(minus(camera_center, (0.0, 0.0, focal_length)), over(viewport_u, 2.0)),
        over(viewport_v, 2.0),
    );
    let pixel00_loc = plus(viewport_upper_left, times(plus(pixel_delta_u, pixel_delta_v), 0.5));

    let mut text = format!("P3\n{} {}\n255\n", image_width, image_height);
    for j in 0..image_height {
        for i in 0..image_width {
            let pixel_center = plus(
                plus(pixel00_loc, times(pixel_delta_u, i as f64)),
                times(pixel_delta_v, j as f64),
            );
            let direction = minus(pixel_center, camera_center);
            let length = (direction.0 * direction.0
                + direction.1 * direction.1
                + direction.2 * direction.2)
                .sqrt();
            let unit_direction = over(direction, length);
            let a = (unit_direction.1 + 1.0) * 0.5;
            let color = plus(times((1.0, 1.0, 1.0), 1.0 - a), times((0.5, 0.7, 1.0), a));
            text.push_str(&pixel_line_in_double_precision(color));
        }
    }
    text
}

#[test]
fn standard_scene_is_byte_for_byte_what_double_precision_gives() {
    let image = render_image(&RenderConfig::default()).unwrap();
    assert_eq!(String::from_utf8(image).unwrap(), standard_scene_in_double_precision());
}

#[test]
fn test_card_is_byte_for_byte_what_double_precision_gives() {
    let mut text = format!("P3\n{} {}\n255\n", 256, 256);
    for j in 0..256 {
        for i in 0..256 {
            let color = (i as f64 / (256 - 1) as f64, j as f64 / (256 - 1) as f64, 0.0);
            text.push_str(&pixel_line_in_double_precision(color));
        }
    }
    assert_eq!(String::from_utf8(render_hello_world_image()).unwrap(), text);
}

#[test]
fn test_card_rows_in_order_make_the_test_card() {
    let mut out: Vec<u8> = Vec::new();
    write_header(&mut out, TEST_CARD_SIZE, TEST_CARD_SIZE);
    for row in 0..TEST_CARD_SIZE {
        write_test_card_row(&mut out, row);
    }
    assert_eq!(out, render_hello_world_image());
}
