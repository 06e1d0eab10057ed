//! The image as text, and the driver that produces it.
//!
//! An image is written in the plain-text PPM format. The header is three
//! lines: the token `P3`, the width and the height separated by a space, and
//! the largest channel level, `255`. After it comes one line for each pixel,
//! row by row from the top, and within a row from left to right.

use vstd::prelude::*;
use crate::arith::{lemma_div_from_brackets, lemma_trunc_div};
use crate::camera::Camera;
use crate::color::{
    channel_level, decimal, is_displayable, lemma_decimal_is_one_word, lemma_line_count_concat,
    lemma_line_count_single, lemma_pixel_line_is_one_line, line_count, pixel_line, push_decimal,
    write_color, Color, LEVEL_FACTOR_MILLIS, LINE_FEED, SPACE,
};
use crate::gradient::{get_ray_color, lemma_gradient_monotonic, sky_color};
use crate::scalar::{lemma_div_by_int, Scalar, SCALE};
use crate::vec3::{lemma_unit_components, lemma_unit_y_monotonic, Vec3};

verus! {

/// The ASCII code of the letter `P`.
pub const LETTER_P: u8 = 80;

/// The ASCII code of the digit `2`.
pub const DIGIT_TWO: u8 = 50;

/// The ASCII code of the digit `3`.
pub const DIGIT_THREE: u8 = 51;

/// The ASCII code of the digit `5`.
pub const DIGIT_FIVE: u8 = 53;

/// The first line of the header: the token `P3`, which names the format.
pub open spec fn magic_line() -> Seq<u8> {
    seq![LETTER_P, DIGIT_THREE, LINE_FEED]
}

/// The second line of the header: the width, a space and the height.
pub open spec fn size_line(width: u32, height: u32) -> Seq<u8> {
    decimal(width as nat) + seq![SPACE] + decimal(height as nat) + seq![LINE_FEED]
}

/// The third line of the header: `255`, the largest channel level.
pub open spec fn depth_line() -> Seq<u8> {
    seq![DIGIT_TWO, DIGIT_FIVE, DIGIT_FIVE, LINE_FEED]
}

/// The three header lines of an image of the given size.
pub open spec fn header(width: u32, height: u32) -> Seq<u8> {
    magic_line() + size_line(width, height) + depth_line()
}

/// The lines of the first `cols` pixels of row `row`, where `color_at` gives
/// the color of the pixel in a column and row.
pub open spec fn row_text(color_at: spec_fn(u32, u32) -> Color, row: u32, cols: nat) -> Seq<u8>
    decreases cols,
{
    if cols == 0 {
        Seq::empty()
    } else {
        row_text(color_at, row, (cols - 1) as nat) + pixel_line(color_at((cols - 1) as u32, row))
    }
}

/// The lines of the first `rows` rows of an image `width` pixels wide.
pub open spec fn grid_text(color_at: spec_fn(u32, u32) -> Color, width: u32, rows: nat) -> Seq<u8>
    decreases rows,
{
    if rows == 0 {
        Seq::empty()
    } else {
        grid_text(color_at, width, (rows - 1) as nat) + row_text(
            color_at,
            (rows - 1) as u32,
            width as nat,
        )
    }
}

/// The whole text of an image: the header and then every pixel.
pub open spec fn image_text(color_at: spec_fn(u32, u32) -> Color, width: u32, height: u32) -> Seq<
    u8,
> {
    header(width, height) + grid_text(color_at, width, height as nat)
}

/// The color of each pixel as `camera` sees the background.
pub open spec fn sky_colors(camera: Camera) -> spec_fn(u32, u32) -> Color {
    |col: u32, row: u32| sky_color(camera.spec_ray_direction(col, row))
}

/// The text of the image of the background that `camera` takes.
pub open spec fn sky_image(camera: Camera) -> Seq<u8> {
    image_text(sky_colors(camera), camera.image_width, camera.image_height)
}

/// The color of a pixel of the test card: red grows from zero to one along
/// each row, green from zero to one down each column, and there is no blue.
pub open spec fn test_card_color(col: u32, row: u32) -> Color {
    Vec3 {
        x: Scalar::spec_from_int(col as int).spec_div(Scalar::spec_from_int(255)),
        y: Scalar::spec_from_int(row as int).spec_div(Scalar::spec_from_int(255)),
        z: Scalar { raw: 0 },
    }
}

/// The text of the test card, an image of 256 by 256 pixels.
pub open spec fn test_card_image() -> Seq<u8> {
    image_text(test_card_colors(), TEST_CARD_SIZE, TEST_CARD_SIZE)
}

/// Appends the header of an image of the given size to `out`.
pub fn write_header(out: &mut Vec<u8>, width: u32, height: u32)
    ensures
        final(out)@ == old(out)@ + header(width, height),
{
    out.push(LETTER_P);
    out.push(DIGIT_THREE);
    out.push(LINE_FEED);
    push_decimal(out, width);
    out.push(SPACE);
    push_decimal(out, height);
    out.push(LINE_FEED);
    out.push(DIGIT_TWO);
    out.push(DIGIT_FIVE);
    out.push(DIGIT_FIVE);
    out.push(LINE_FEED);
    assert(out@ =~= old(out)@ + header(width, height));
}

/// Appends the lines of one row of the image that `camera` takes to `out`.
pub fn write_scanline(out: &mut Vec<u8>, camera: &Camera, row: u32)
    requires
        camera.can_cast_row(row),
    ensures
        final(out)@ == old(out)@ + row_text(sky_colors(*camera), row, camera.image_width as nat),
{
    let mut col: u32 = 0;
    assert(out@ =~= old(out)@ + row_text(sky_colors(*camera), row, 0));
    while col < camera.image_width
        invariant
            col <= camera.image_width,
            camera.can_cast_row(row),
            out@ == old(out)@ + row_text(sky_colors(*camera), row, col as nat),
        decreases camera.image_width - col,
    {
        assert(camera.can_cast(col, row));
        let ray = camera.ray_through(col, row);
        let pixel_color = get_ray_color(ray);
        write_color(out, pixel_color);
        col = col + 1;
        assert(out@ =~= old(out)@ + row_text(sky_colors(*camera), row, col as nat));
    }
}

/// Renders the image of the background that `camera` takes.
pub fn render(camera: &Camera) -> (out: Vec<u8>)
    requires
        camera.is_renderable(),
    ensures
        out@ == sky_image(*camera),
{
    let mut out: Vec<u8> = Vec::new();
    write_header(&mut out, camera.image_width, camera.image_height);
    let ghost head = out@;
    let mut row: u32 = 0;
    assert(out@ =~= head + grid_text(sky_colors(*camera), camera.image_width, 0));
    while row < camera.image_height
        invariant
            row <= camera.image_height,
            camera.is_renderable(),
            head == header(camera.image_width, camera.image_height),
            out@ == head + grid_text(sky_colors(*camera), camera.image_width, row as nat),
        decreases camera.image_height - row,
    {
        assert(camera.can_cast_row(row));
        write_scanline(&mut out, camera, row);
        row = row + 1;
        assert(out@ =~= head + grid_text(sky_colors(*camera), camera.image_width, row as nat));
    }
    out
}

/// The image depends on the camera alone: rendering twice with equal
/// cameras gives the same text, byte for byte.
pub proof fn lemma_render_repeatable(first: Camera, second: Camera)
    requires
        first == second,
    ensures
        sky_image(first) == sky_image(second),
{
}

/// The picture is bluest at the top. Where the rows of a camera run straight
/// down, a pixel's ray points at least as far up as the ray of any pixel
/// below it in the same column, so its color has at least as much weight of
/// blue: no more red and no more green, and the same full blue channel.
pub proof fn lemma_column_gradient(camera: Camera, col: u32, upper: u32, lower: u32)
    requires
        camera.rows_run_down(),
        upper <= lower,
        camera.can_cast(col, upper),
        camera.can_cast(col, lower),
    ensures
        camera.spec_ray_direction(col, upper).y.raw >= camera.spec_ray_direction(col, lower).y.raw,
        Vec3::spec_unit_vec(camera.spec_ray_direction(col, upper)).y.raw >= Vec3::spec_unit_vec(
            camera.spec_ray_direction(col, lower),
        ).y.raw,
        sky_colors(camera)(col, upper).x.raw <= sky_colors(camera)(col, lower).x.raw,
        sky_colors(camera)(col, upper).y.raw <= sky_colors(camera)(col, lower).y.raw,
        sky_colors(camera)(col, upper).z.raw == SCALE,
        sky_colors(camera)(col, lower).z.raw == SCALE,
{
    let step = camera.pixel_delta_v;
    let high = camera.spec_ray_direction(col, upper);
    let low = camera.spec_ray_direction(col, lower);
    assert(step.y.raw * lower <= step.y.raw * upper) by (nonlinear_arith)
        requires
            step.y.raw <= 0,
            0 <= upper <= lower,
    ;
    assert(0 * upper == 0 && 0 * lower == 0);
    assert(high.x == low.x);
    assert(high.z == low.z);
    assert(low.y.raw <= high.y.raw);
    lemma_unit_y_monotonic(low, high);
    lemma_unit_components(low);
    lemma_unit_components(high);
    lemma_gradient_monotonic(Vec3::spec_unit_vec(low).y, Vec3::spec_unit_vec(high).y);
}

/// The header takes three lines.
pub proof fn lemma_header_line_count(width: u32, height: u32)
    ensures
        line_count(header(width, height)) == 3,
{
    let w = decimal(width as nat);
    let h = decimal(height as nat);
    lemma_line_count_single(LETTER_P);
    lemma_line_count_single(DIGIT_TWO);
    lemma_line_count_single(DIGIT_THREE);
    lemma_line_count_single(DIGIT_FIVE);
    lemma_line_count_single(SPACE);
    lemma_line_count_single(LINE_FEED);
    assert(line_count(magic_line()) == 1) by {
        assert(magic_line() =~= seq![LETTER_P] + seq![DIGIT_THREE] + seq![LINE_FEED]);
        lemma_line_count_concat(seq![LETTER_P], seq![DIGIT_THREE]);
        lemma_line_count_concat(seq![LETTER_P] + seq![DIGIT_THREE], seq![LINE_FEED]);
    }
    assert(line_count(size_line(width, height)) == 1) by {
        lemma_decimal_is_one_word(width as nat);
        lemma_decimal_is_one_word(height as nat);
        lemma_line_count_concat(w, seq![SPACE]);
        lemma_line_count_concat(w + seq![SPACE], h);
        lemma_line_count_concat(w + seq![SPACE] + h, seq![LINE_FEED]);
    }
    assert(line_count(depth_line()) == 1) by {
        assert(depth_line() =~= seq![DIGIT_TWO] + seq![DIGIT_FIVE] + seq![DIGIT_FIVE] + seq![
            LINE_FEED,
        ]);
        lemma_line_count_concat(seq![DIGIT_TWO], seq![DIGIT_FIVE]);
        lemma_line_count_concat(seq![DIGIT_TWO] + seq![DIGIT_FIVE], seq![DIGIT_FIVE]);
        lemma_line_count_concat(
            seq![DIGIT_TWO] + seq![DIGIT_FIVE] + seq![DIGIT_FIVE],
            seq![LINE_FEED],
        );
    }
    lemma_line_count_concat(magic_line(), size_line(width, height));
    lemma_line_count_concat(magic_line() + size_line(width, height), depth_line());
}

/// The first `cols` pixels of a row take `cols` lines.
pub proof fn lemma_row_line_count(color_at: spec_fn(u32, u32) -> Color, row: u32, cols: nat)
    ensures
        line_count(row_text(color_at, row, cols)) == cols,
    decreases cols,
{
    if cols > 0 {
        lemma_row_line_count(color_at, row, (cols - 1) as nat);
        lemma_pixel_line_is_one_line(color_at((cols - 1) as u32, row));
        lemma_line_count_concat(
            row_text(color_at, row, (cols - 1) as nat),
            pixel_line(color_at((cols - 1) as u32, row)),
        );
    }
}

/// The first `rows` rows of an image take one line for each of their pixels.
pub proof fn lemma_grid_line_count(color_at: spec_fn(u32, u32) -> Color, width: u32, rows: nat)
    ensures
        line_count(grid_text(color_at, width, rows)) == rows * width,
    decreases rows,
{
    if rows > 0 {
        lemma_grid_line_count(color_at, width, (rows - 1) as nat);
        lemma_row_line_count(color_at, (rows - 1) as u32, width as nat);
        lemma_line_count_concat(
            grid_text(color_at, width, (rows - 1) as nat),
            row_text(color_at, (rows - 1) as u32, width as nat),
        );
        assert(rows * width == (rows - 1) * width + width) by (nonlinear_arith);
    } else {
        assert(rows * width == 0) by (nonlinear_arith)
            requires
                rows == 0,
        ;
    }
}

/// An image is its three header lines and then exactly one line for each
/// pixel.
pub proof fn lemma_image_line_count(color_at: spec_fn(u32, u32) -> Color, width: u32, height: u32)
    ensures
        line_count(image_text(color_at, width, height)) == 3 + width * height,
{
    lemma_header_line_count(width, height);
    lemma_grid_line_count(color_at, width, height as nat);
    lemma_line_count_concat(header(width, height), grid_text(color_at, width, height as nat));
    assert(height * width == width * height) by (nonlinear_arith);
}

/// The levels of a pixel of the test card are its column, its row and zero:
/// the ramps step through every level exactly once.
pub proof fn lemma_test_card_levels(col: u32, row: u32)
    requires
        col < 256,
        row < 256,
    ensures
        Scalar::spec_from_int(col as int).can_div(Scalar::spec_from_int(255)),
        Scalar::spec_from_int(row as int).can_div(Scalar::spec_from_int(255)),
        channel_level(test_card_color(col, row).x) == col,
        channel_level(test_card_color(col, row).y) == row,
        channel_level(test_card_color(col, row).z) == 0,
        is_displayable(test_card_color(col, row)),
{
    lemma_test_card_ramp(col);
    lemma_test_card_ramp(row);
    lemma_trunc_div(0, 1000 * SCALE);
}

/// Step `step` of the ramp from zero to one in 255 steps has level `step`.
proof fn lemma_test_card_ramp(step: u32)
    requires
        step < 256,
    ensures
        Scalar::spec_from_int(step as int).can_div(Scalar::spec_from_int(255)),
        channel_level(Scalar::spec_from_int(step as int).spec_div(Scalar::spec_from_int(255)))
            == step,
{
    let a = Scalar::spec_from_int(step as int);
    let d = Scalar::spec_from_int(255);
    lemma_div_by_int(a, 255);
    // The intensity: step / 255, rounded down to a raw unit.
    let r = (step * SCALE) / 255;
    assert(a.raw * SCALE == step * 1_000_000_000_000_000_000_000_000_000_000);
    lemma_div_from_brackets(a.raw * SCALE, d.raw as int, r);
    assert(a.spec_div(d).raw == r);
    // Its level: 255.999 times the intensity, rounded down.
    assert(r * LEVEL_FACTOR_MILLIS == r * 255_999);
    lemma_div_from_brackets(r * LEVEL_FACTOR_MILLIS, 1000 * SCALE, step as int);
}

/// The number of pixels along each edge of the test card.
pub const TEST_CARD_SIZE: u32 = 256;

/// The color of each pixel of the test card.
pub open spec fn test_card_colors() -> spec_fn(u32, u32) -> Color {
    |col: u32, row: u32| test_card_color(col, row)
}

/// Appends the lines of one row of the test card to `out`.
pub fn write_test_card_row(out: &mut Vec<u8>, row: u32)
    requires
        row < TEST_CARD_SIZE,
    ensures
        final(out)@ == old(out)@ + row_text(test_card_colors(), row, TEST_CARD_SIZE as nat),
{
    let full = Scalar::from_int(255);
    let mut col: u32 = 0;
    assert(out@ =~= old(out)@ + row_text(test_card_colors(), row, 0));
    while col < TEST_CARD_SIZE
        invariant
            col <= TEST_CARD_SIZE,
            row < TEST_CARD_SIZE,
            full == Scalar::spec_from_int(255),
            out@ == old(out)@ + row_text(test_card_colors(), row, col as nat),
        decreases TEST_CARD_SIZE - col,
    {
        proof {
            lemma_test_card_levels(col, row);
        }
        let pixel_color = Color::new(
            Scalar::from_int(col as i32).div(full),
            Scalar::from_int(row as i32).div(full),
            Scalar::from_raw(0),
        );
        assert(pixel_color == test_card_colors()(col, row));
        write_color(out, pixel_color);
        col = col + 1;
        assert(out@ =~= old(out)@ + row_text(test_card_colors(), row, col as nat));
    }
}

/// Renders the test card.
pub fn render_hello_world_image() -> (out: Vec<u8>)
    ensures
        out@ == test_card_image(),
{
    let mut out: Vec<u8> = Vec::new();
    write_header(&mut out, TEST_CARD_SIZE, TEST_CARD_SIZE);
    let ghost head = out@;
    let mut row: u32 = 0;
    assert(out@ =~= head + grid_text(test_card_colors(), TEST_CARD_SIZE, 0));
    while row < TEST_CARD_SIZE
        invariant
            row <= TEST_CARD_SIZE,
            head == header(TEST_CARD_SIZE, TEST_CARD_SIZE),
            out@ == head + grid_text(test_card_colors(), TEST_CARD_SIZE, row as nat),
        decreases TEST_CARD_SIZE - row,
    {
        write_test_card_row(&mut out, row);
        row = row + 1;
        assert(out@ =~= head + grid_text(test_card_colors(), TEST_CARD_SIZE, row as nat));
    }
    out
}

} // verus!
