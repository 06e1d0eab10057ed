//! Colors and how they are written out as text.
//!
//! A color is a vector whose components are the red, green and blue
//! intensities, nominally between zero and one. A pixel is written as one
//! line of ASCII text: three decimal numbers between 0 and 255, separated by
//! single spaces and followed by a line feed.

use vstd::prelude::*;
use crate::arith::{div_toward_zero, lemma_trunc_div, trunc_div};
use crate::scalar::{Scalar, SCALE};
use crate::vec3::Vec3;

verus! {

/// Red, green and blue intensities in `x`, `y` and `z`.
pub type Color = Vec3;

/// The factor that maps an intensity to a channel level, in thousandths:
/// 255.999.
pub const LEVEL_FACTOR_MILLIS: i64 = 255_999;

/// The ASCII code of the line feed, which ends every line.
pub const LINE_FEED: u8 = 10;

/// The ASCII code of the space, which separates the numbers on a line.
pub const SPACE: u8 = 32;

/// The ASCII code of the digit zero; the other digits follow it in order.
pub const DIGIT_ZERO: u8 = 48;

/// The channel level of intensity `c`: `255.999 * c`, its fraction dropped.
pub open spec fn channel_level(c: Scalar) -> int {
    trunc_div(c.raw * LEVEL_FACTOR_MILLIS, 1000 * SCALE)
}

/// Whether the level of every channel of `c` fits a byte. Every color with
/// intensities from zero to one does.
pub open spec fn is_displayable(c: Color) -> bool {
    &&& 0 <= channel_level(c.x) <= 255
    &&& 0 <= channel_level(c.y) <= 255
    &&& 0 <= channel_level(c.z) <= 255
}

/// Whether `s` lies between zero and one.
pub open spec fn is_fraction(s: Scalar) -> bool {
    0 <= s.raw <= SCALE
}

/// The level of an intensity between zero and one fits a byte.
pub proof fn lemma_fraction_is_displayable(c: Scalar)
    requires
        is_fraction(c),
    ensures
        0 <= channel_level(c) <= 255,
{
    let n = c.raw * LEVEL_FACTOR_MILLIS;
    let d = 1000 * SCALE;
    let q = channel_level(c);
    lemma_trunc_div(n, d);
    assert(0 <= n <= 255_999 * SCALE) by (nonlinear_arith)
        requires
            n == c.raw * 255_999,
            0 <= c.raw <= SCALE,
    ;
    assert(q <= 255) by (nonlinear_arith)
        requires
            0 <= q,
            q * d <= n,
            n <= 255_999 * SCALE,
            d == 1000 * SCALE,
            0 < SCALE,
    ;
}

/// The decimal digits of `n` in ASCII, most significant first, without
/// leading zeros.
pub open spec fn decimal(n: nat) -> Seq<u8>
    decreases n,
{
    if n < 10 {
        seq![(DIGIT_ZERO + n) as u8]
    } else {
        decimal(n / 10).push((DIGIT_ZERO + n % 10) as u8)
    }
}

/// Whether `byte` is the ASCII code of a digit.
pub open spec fn is_digit(byte: u8) -> bool {
    DIGIT_ZERO <= byte <= DIGIT_ZERO + 9
}

/// The number that a run of ASCII digits stands for.
pub open spec fn digits_value(digits: Seq<u8>) -> nat
    decreases digits.len(),
{
    if digits.len() == 0 {
        0
    } else {
        digits_value(digits.drop_last()) * 10 + (digits.last() - DIGIT_ZERO) as nat
    }
}

/// The text of a number reads back as the number: it is made of digits
/// alone, at least one, stands for the number, and starts with a zero only
/// where the number is zero.
pub proof fn lemma_decimal_reads_back(n: nat)
    ensures
        decimal(n).len() >= 1,
        forall|i: int| 0 <= i < decimal(n).len() ==> is_digit(#[trigger] decimal(n)[i]),
        digits_value(decimal(n)) == n,
        decimal(n)[0] == DIGIT_ZERO <==> n == 0,
    decreases n,
{
    if n < 10 {
        let text = decimal(n);
        assert(text.drop_last() =~= Seq::<u8>::empty());
        assert(digits_value(text.drop_last()) == 0);
    } else {
        lemma_decimal_reads_back(n / 10);
        let text = decimal(n);
        assert(text.drop_last() =~= decimal(n / 10));
        assert(text[0] == decimal(n / 10)[0]);
    }
}

/// The line of text for one pixel of color `c`: `R G B` and a line feed.
pub open spec fn pixel_line(c: Color) -> Seq<u8> {
    decimal(channel_level(c.x) as nat) + seq![SPACE] + decimal(channel_level(c.y) as nat)
        + seq![SPACE] + decimal(channel_level(c.z) as nat) + seq![LINE_FEED]
}

/// The number of line feeds in `text`.
pub open spec fn line_count(text: Seq<u8>) -> nat
    decreases text.len(),
{
    if text.len() == 0 {
        0
    } else {
        line_count(text.drop_last()) + if text.last() == LINE_FEED {
            1nat
        } else {
            0nat
        }
    }
}

/// The lines of two texts put together are the lines of each.
pub proof fn lemma_line_count_concat(a: Seq<u8>, b: Seq<u8>)
    ensures
        line_count(a + b) == line_count(a) + line_count(b),
    decreases b.len(),
{
    if b.len() == 0 {
        assert(a + b =~= a);
    } else {
        lemma_line_count_concat(a, b.drop_last());
        assert((a + b).drop_last() =~= a + b.drop_last());
        assert((a + b).last() == b.last());
    }
}

/// A text of one byte has one line feed if that is the byte, else none.
pub proof fn lemma_line_count_single(byte: u8)
    ensures
        line_count(seq![byte]) == if byte == LINE_FEED {
            1nat
        } else {
            0nat
        },
{
    let text = seq![byte];
    assert(text.drop_last() =~= Seq::<u8>::empty());
    assert(line_count(text.drop_last()) == 0);
    assert(text.last() == byte);
}

/// A number's digits hold no line feed.
pub proof fn lemma_decimal_is_one_word(n: nat)
    ensures
        line_count(decimal(n)) == 0,
    decreases n,
{
    if n < 10 {
        lemma_line_count_single((DIGIT_ZERO + n) as u8);
    } else {
        lemma_decimal_is_one_word(n / 10);
        let digit = (DIGIT_ZERO + n % 10) as u8;
        assert(decimal(n) =~= decimal(n / 10) + seq![digit]);
        lemma_line_count_concat(decimal(n / 10), seq![digit]);
        lemma_line_count_single(digit);
    }
}

/// A pixel takes exactly one line.
pub proof fn lemma_pixel_line_is_one_line(c: Color)
    ensures
        line_count(pixel_line(c)) == 1,
{
    let r = decimal(channel_level(c.x) as nat);
    let g = decimal(channel_level(c.y) as nat);
    let b = decimal(channel_level(c.z) as nat);
    lemma_decimal_is_one_word(channel_level(c.x) as nat);
    lemma_decimal_is_one_word(channel_level(c.y) as nat);
    lemma_decimal_is_one_word(channel_level(c.z) as nat);
    lemma_line_count_single(SPACE);
    lemma_line_count_single(LINE_FEED);
    lemma_line_count_concat(r, seq![SPACE]);
    lemma_line_count_concat(r + seq![SPACE], g);
    lemma_line_count_concat(r + seq![SPACE] + g, seq![SPACE]);
    lemma_line_count_concat(r + seq![SPACE] + g + seq![SPACE], b);
    lemma_line_count_concat(r + seq![SPACE] + g + seq![SPACE] + b, seq![LINE_FEED]);
}

/// Maps an intensity to its channel level.
pub fn channel_byte(c: Scalar) -> (level: u8)
    requires
        0 <= channel_level(c) <= 255,
    ensures
        level == channel_level(c),
{
    let scaled: i128 = (c.raw as i128) * (LEVEL_FACTOR_MILLIS as i128);
    let q: i128 = div_toward_zero(scaled, 1000 * (SCALE as i128));
    q as u8
}

/// Appends the decimal digits of `n` to `out`.
pub fn push_decimal(out: &mut Vec<u8>, n: u32)
    ensures
        final(out)@ == old(out)@ + decimal(n as nat),
    decreases n,
{
    if n >= 10 {
        push_decimal(out, n / 10);
    }
    let digit: u8 = (n % 10) as u8;
    out.push(DIGIT_ZERO + digit);
    assert(out@ =~= old(out)@ + decimal(n as nat));
}

/// Appends the line of text for one pixel to `out`.
pub fn write_color(out: &mut Vec<u8>, pixel_color: Color)
    requires
        is_displayable(pixel_color),
    ensures
        final(out)@ == old(out)@ + pixel_line(pixel_color),
{
    let r = channel_byte(pixel_color.x());
    let g = channel_byte(pixel_color.y());
    let b = channel_byte(pixel_color.z());
    push_decimal(out, r as u32);
    out.push(SPACE);
    push_decimal(out, g as u32);
    out.push(SPACE);
    push_decimal(out, b as u32);
    out.push(LINE_FEED);
    assert(out@ =~= old(out)@ + pixel_line(pixel_color));
}

} // verus!
