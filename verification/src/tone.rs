use crate::color::{black, brightness, channel_sum, white, Color};
use crate::random::DRAW_RANGE;
use crate::threshold::{exceeds, Threshold};
use vstd::prelude::*;

verus! {

/// Binary thresholding of one colour: white when its brightness, as a
/// fraction of 255, is strictly greater than the threshold; black otherwise.
pub open spec fn thresholded(c: Color, t: Threshold) -> Color {
    if exceeds(brightness(c), 255, t.numer() as int, t.denom() as int) {
        white()
    } else {
        black()
    }
}

/// Dithering of one colour against a draw: white when the channel sum, as a
/// fraction of 765, is strictly greater than `draw / DRAW_RANGE`; black
/// otherwise.
pub open spec fn dithered(c: Color, draw: int) -> Color {
    if exceeds(channel_sum(c), 765, draw, DRAW_RANGE as int) {
        white()
    } else {
        black()
    }
}

/// Whether some draw below `DRAW_RANGE` dithers `c` to `d`.
pub open spec fn may_dither_to(c: Color, d: Color) -> bool {
    exists|draw: int| 0 <= draw < DRAW_RANGE && d == #[trigger] dithered(c, draw)
}

/// Ordered dithering of one colour against one matrix level: white when its
/// brightness, as a fraction of 255, is strictly greater than
/// `level / divisor`; black otherwise.
pub open spec fn ordered(c: Color, level: int, divisor: int) -> Color {
    if exceeds(brightness(c), 255, level, divisor) {
        white()
    } else {
        black()
    }
}

/// Thresholds one colour.
pub fn threshold_pixel(c: Color, t: Threshold) -> (d: Color)
    ensures
        d == thresholded(c, t),
{
    let level: i64 = c.brightness() as i64;
    let denom: i64 = t.denom() as i64;
    let numer: i64 = t.numer() as i64;
    assert(0 <= level * denom <= 255 * 0xffff_ffff) by (nonlinear_arith)
        requires
            0 <= level <= 255,
            0 <= denom <= 0xffff_ffff,
    ;
    if level * denom > numer * 255 {
        Color::white()
    } else {
        Color::black()
    }
}

/// Dithers one colour against a draw.
pub fn dither_pixel(c: Color, draw: u32) -> (d: Color)
    ensures
        d == dithered(c, draw as int),
{
    let sum: u64 = c.channel_sum() as u64;
    let range: u64 = DRAW_RANGE as u64;
    assert(0 <= sum * range <= 765 * 0x100_0000) by (nonlinear_arith)
        requires
            0 <= sum <= 765,
            range == 0x100_0000,
    ;
    if sum * range > (draw as u64) * 765 {
        Color::white()
    } else {
        Color::black()
    }
}

/// Dithers one colour against one matrix level.
pub fn bayer_pixel(c: Color, level: u64, divisor: u64) -> (d: Color)
    ensures
        d == ordered(c, level as int, divisor as int),
{
    let light: u128 = c.brightness() as u128;
    assert(0 <= light * (divisor as u128) <= 255 * 0xffff_ffff_ffff_ffff) by (nonlinear_arith)
        requires
            0 <= light <= 255,
            0 <= divisor <= 0xffff_ffff_ffff_ffff,
    ;
    if light * (divisor as u128) > (level as u128) * 255 {
        Color::white()
    } else {
        Color::black()
    }
}

/// Thresholding yields pure black or pure white, whatever the colour and
/// the threshold.
pub proof fn lemma_thresholded_black_or_white(c: Color, t: Threshold)
    ensures
        thresholded(c, t) == black() || thresholded(c, t) == white(),
{
}

/// The comparison is strict: a colour whose brightness, as a fraction of
/// 255, equals the threshold becomes black.
pub proof fn lemma_threshold_is_strict(c: Color, t: Threshold)
    requires
        brightness(c) * t.denom() == t.numer() * 255,
    ensures
        thresholded(c, t) == black(),
{
}

/// Thresholding what was thresholded changes nothing.
pub proof fn lemma_thresholded_idempotent(c: Color, t: Threshold)
    ensures
        thresholded(thresholded(c, t), t) == thresholded(c, t),
{
    let level = brightness(c);
    let numer = t.numer() as int;
    let denom = t.denom() as int;
    assert(brightness(white()) == 255);
    assert(brightness(black()) == 0);
    if exceeds(level, 255, numer, denom) {
        assert(255 * denom > numer * 255) by (nonlinear_arith)
            requires
                level * denom > numer * 255,
                0 <= level <= 255,
                0 <= denom,
        ;
    } else {
        assert(!(0 * denom > numer * 255)) by (nonlinear_arith)
            requires
                level * denom <= numer * 255,
                0 <= level,
                0 <= denom,
        ;
    }
}

/// Dithering yields pure black or pure white, whatever the colour and the
/// draw.
pub proof fn lemma_dithered_black_or_white(c: Color, draw: int)
    ensures
        dithered(c, draw) == black() || dithered(c, draw) == white(),
{
}

/// What dithering can make of a colour: white unless the colour is pure
/// black, black unless it is pure white, and nothing else.
pub proof fn lemma_dither_outcomes(c: Color, d: Color)
    ensures
        may_dither_to(c, d) <==> (d == white() && channel_sum(c) > 0) || (d == black()
            && channel_sum(c) < 765),
{
    let sum = channel_sum(c);
    if may_dither_to(c, d) {
        let draw = choose|draw: int| 0 <= draw < DRAW_RANGE && d == #[trigger] dithered(c, draw);
        if d == white() {
            assert(sum > 0) by (nonlinear_arith)
                requires
                    sum * 0x100_0000 > draw * 765,
                    draw >= 0,
            ;
        } else {
            assert(sum < 765) by (nonlinear_arith)
                requires
                    sum * 0x100_0000 <= draw * 765,
                    draw < 0x100_0000,
            ;
        }
    }
    if d == white() && sum > 0 {
        assert(d == dithered(c, 0));
    }
    if d == black() && sum < 765 {
        assert(d == dithered(c, 0xff_ffff));
    }
}

/// Ordered dithering yields pure black or pure white, whatever the colour
/// and the level.
pub proof fn lemma_ordered_black_or_white(c: Color, level: int, divisor: int)
    ensures
        ordered(c, level, divisor) == black() || ordered(c, level, divisor) == white(),
{
}

/// Ordered dithering leaves pure black and pure white as they are, at every
/// level below the divisor.
pub proof fn lemma_ordered_idempotent(c: Color, level: int, divisor: int)
    requires
        0 <= level < divisor,
    ensures
        ordered(ordered(c, level, divisor), level, divisor) == ordered(c, level, divisor),
{
    assert(brightness(white()) == 255);
    assert(brightness(black()) == 0);
    assert(exceeds(255, 255, level, divisor));
    assert(!exceeds(0, 255, level, divisor));
}

} // verus!
