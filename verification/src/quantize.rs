use crate::bayer::{
    bayer_divisor, bayer_side, generate_bayer_matrix, lemma_bayer_level_below_divisor,
    tiled_level, MAX_ORDER,
};
use crate::color::{black, white};
use crate::palette::{
    find_closest_color, fixed_palette, lemma_nearest_color_idempotent,
    lemma_nearest_color_in_palette, nearest_color, palette,
};
use crate::random::{random_draw, thread_generator};
use crate::raster::Raster;
use crate::threshold::Threshold;
use crate::tone::{
    bayer_pixel, dither_pixel, dithered, lemma_dither_outcomes, lemma_ordered_idempotent,
    lemma_thresholded_idempotent, may_dither_to, ordered, threshold_pixel, thresholded,
};
use vstd::prelude::*;

verus! {

/// Whether cell `(i, j)` comes before cell `(x, y)` when rows are walked top
/// to bottom and each row left to right.
pub open spec fn walked_before(i: int, j: int, x: int, y: int) -> bool {
    j < y || (j == y && i < x)
}

/// `out` is `image` with every colour thresholded.
pub open spec fn monochrome_of(out: Raster, image: Raster, t: Threshold) -> bool {
    &&& out.same_size(image)
    &&& forall|x: int, y: int| #[trigger]
        image.contains(x, y) ==> out.at(x, y) == thresholded(image.at(x, y), t)
}

/// `out` is `image` with every colour replaced by the nearest of the fixed
/// palette.
pub open spec fn palette_of(out: Raster, image: Raster) -> bool {
    &&& out.same_size(image)
    &&& forall|x: int, y: int| #[trigger]
        image.contains(x, y) ==> out.at(x, y) == nearest_color(image.at(x, y), fixed_palette())
}

/// `out` is `image` with every colour dithered against some draw of its own.
pub open spec fn dithering_of(out: Raster, image: Raster) -> bool {
    &&& out.same_size(image)
    &&& forall|x: int, y: int| #[trigger]
        image.contains(x, y) ==> may_dither_to(image.at(x, y), out.at(x, y))
}

/// `out` is `image` with every colour dithered against the level of the
/// matrix of the given order that covers its cell.
pub open spec fn bayer_of(out: Raster, image: Raster, order: nat) -> bool {
    &&& out.same_size(image)
    &&& forall|x: int, y: int| #[trigger]
        image.contains(x, y) ==> out.at(x, y) == ordered(
            image.at(x, y),
            tiled_level(order, y, x) as int,
            bayer_divisor(order) as int,
        )
}

/// Binary thresholding: every pixel becomes white when its brightness is
/// strictly above the threshold, black otherwise. The dimensions stay.
pub fn apply_monochrome(image: Raster, threshold: Threshold) -> (out: Raster)
    ensures
        monochrome_of(out, image, threshold),
{
    let mut out = image;
    let (width, height) = out.dimensions();
    let mut y: u32 = 0;
    while y < height
        invariant
            out.same_size(image),
            width == image.width(),
            height == image.height(),
            y <= height,
            forall|i: int, j: int| #[trigger]
                image.contains(i, j) ==> out.at(i, j) == if j < y {
                    thresholded(image.at(i, j), threshold)
                } else {
                    image.at(i, j)
                },
        decreases height - y,
    {
        let mut x: u32 = 0;
        while x < width
            invariant
                out.same_size(image),
                width == image.width(),
                height == image.height(),
                y < height,
                x <= width,
                forall|i: int, j: int| #[trigger]
                    image.contains(i, j) ==> out.at(i, j) == if walked_before(
                        i,
                        j,
                        x as int,
                        y as int,
                    ) {
                        thresholded(image.at(i, j), threshold)
                    } else {
                        image.at(i, j)
                    },
            decreases width - x,
        {
            assert(image.contains(x as int, y as int));
            let pixel = out.get(x, y).unwrap();
            out.set(x, y, threshold_pixel(pixel, threshold));
            x += 1;
        }
        y += 1;
    }
    out
}

/// Palette mapping: every pixel becomes the nearest of the eight fixed
/// colours, the earlier one where two are equally near. The dimensions stay.
pub fn apply_palette(image: Raster) -> (out: Raster)
    ensures
        palette_of(out, image),
{
    let colors = palette();
    let mut out = image;
    let (width, height) = out.dimensions();
    let mut y: u32 = 0;
    while y < height
        invariant
            out.same_size(image),
            width == image.width(),
            height == image.height(),
            y <= height,
            colors@ == fixed_palette(),
            forall|i: int, j: int| #[trigger]
                image.contains(i, j) ==> out.at(i, j) == if j < y {
                    nearest_color(image.at(i, j), fixed_palette())
                } else {
                    image.at(i, j)
                },
        decreases height - y,
    {
        let mut x: u32 = 0;
        while x < width
            invariant
                out.same_size(image),
                width == image.width(),
                height == image.height(),
                y < height,
                x <= width,
                colors@ == fixed_palette(),
                forall|i: int, j: int| #[trigger]
                    image.contains(i, j) ==> out.at(i, j) == if walked_before(
                        i,
                        j,
                        x as int,
                        y as int,
                    ) {
                        nearest_color(image.at(i, j), fixed_palette())
                    } else {
                        image.at(i, j)
                    },
            decreases width - x,
        {
            assert(image.contains(x as int, y as int));
            let pixel = out.get(x, y).unwrap();
            out.set(x, y, find_closest_color(pixel, colors.as_slice()));
            x += 1;
        }
        y += 1;
    }
    out
}

/// Random dithering: every pixel becomes white when its channel sum, as a
/// fraction of 765, is strictly above a fresh uniform draw from `[0, 1)`,
/// black otherwise. Pixels are visited row by row, each row left to right,
/// one draw per pixel. The dimensions stay.
pub fn apply_dithering(image: Raster) -> (out: Raster)
    ensures
        dithering_of(out, image),
{
    let mut rng = thread_generator();
    let mut out = image;
    let (width, height) = out.dimensions();
    let mut y: u32 = 0;
    while y < height
        invariant
            out.same_size(image),
            width == image.width(),
            height == image.height(),
            y <= height,
            forall|i: int, j: int| #[trigger]
                image.contains(i, j) ==> if j < y {
                    may_dither_to(image.at(i, j), out.at(i, j))
                } else {
                    out.at(i, j) == image.at(i, j)
                },
        decreases height - y,
    {
        let mut x: u32 = 0;
        while x < width
            invariant
                out.same_size(image),
                width == image.width(),
                height == image.height(),
                y < height,
                x <= width,
                forall|i: int, j: int| #[trigger]
                    image.contains(i, j) ==> if walked_before(i, j, x as int, y as int) {
                        may_dither_to(image.at(i, j), out.at(i, j))
                    } else {
                        out.at(i, j) == image.at(i, j)
                    },
            decreases width - x,
        {
            assert(image.contains(x as int, y as int));
            let pixel = out.get(x, y).unwrap();
            let draw = random_draw(&mut rng);
            let dot = dither_pixel(pixel, draw);
            assert(may_dither_to(pixel, dot)) by {
                assert(dot == dithered(pixel, draw as int));
            }
            out.set(x, y, dot);
            x += 1;
        }
        y += 1;
    }
    out
}

/// Ordered dithering: every pixel becomes white when its brightness, as a
/// fraction of 255, is strictly above the threshold of the matrix cell that
/// covers it, black otherwise. The matrix of the given order is repeated
/// across the image, so cell `(x, y)` meets matrix row `y mod side` and
/// column `x mod side`. The dimensions stay.
pub fn apply_bayer(image: Raster, order: u32) -> (out: Raster)
    requires
        order <= MAX_ORDER,
    ensures
        bayer_of(out, image, order as nat),
{
    let matrix = generate_bayer_matrix(order);
    let divisor = matrix.divisor();
    let mut out = image;
    let (width, height) = out.dimensions();
    let mut y: u32 = 0;
    while y < height
        invariant
            out.same_size(image),
            width == image.width(),
            height == image.height(),
            y <= height,
            matrix.spec_order() == order,
            divisor == bayer_divisor(order as nat),
            forall|i: int, j: int| #[trigger]
                image.contains(i, j) ==> out.at(i, j) == if j < y {
                    ordered(image.at(i, j), tiled_level(order as nat, j, i) as int, divisor as int)
                } else {
                    image.at(i, j)
                },
        decreases height - y,
    {
        let mut x: u32 = 0;
        while x < width
            invariant
                out.same_size(image),
                width == image.width(),
                height == image.height(),
                y < height,
                x <= width,
                matrix.spec_order() == order,
                divisor == bayer_divisor(order as nat),
                forall|i: int, j: int| #[trigger]
                    image.contains(i, j) ==> out.at(i, j) == if walked_before(
                        i,
                        j,
                        x as int,
                        y as int,
                    ) {
                        ordered(image.at(i, j), tiled_level(order as nat, j, i) as int, divisor as int)
                    } else {
                        image.at(i, j)
                    },
            decreases width - x,
        {
            assert(image.contains(x as int, y as int));
            let pixel = out.get(x, y).unwrap();
            let level = matrix.tiled_level(y, x);
            out.set(x, y, bayer_pixel(pixel, level, divisor));
            x += 1;
        }
        y += 1;
    }
    out
}

/// In a thresholded image every pixel is pure black or pure white.
pub proof fn lemma_monochrome_is_two_tone(image: Raster, out: Raster, t: Threshold, x: int, y: int)
    requires
        monochrome_of(out, image, t),
        out.contains(x, y),
    ensures
        out.at(x, y) == black() || out.at(x, y) == white(),
{
    assert(image.contains(x, y));
}

/// In a palette-mapped image every pixel is one of the eight fixed colours.
pub proof fn lemma_palette_stays_in_palette(image: Raster, out: Raster, x: int, y: int)
    requires
        palette_of(out, image),
        out.contains(x, y),
    ensures
        fixed_palette().contains(out.at(x, y)),
{
    assert(image.contains(x, y));
    lemma_nearest_color_in_palette(image.at(x, y), fixed_palette());
}

/// In a randomly dithered image every pixel is pure black or pure white.
pub proof fn lemma_dithering_is_two_tone(image: Raster, out: Raster, x: int, y: int)
    requires
        dithering_of(out, image),
        out.contains(x, y),
    ensures
        out.at(x, y) == black() || out.at(x, y) == white(),
{
    assert(image.contains(x, y));
    lemma_dither_outcomes(image.at(x, y), out.at(x, y));
}

/// In an image dithered against a matrix every pixel is pure black or pure
/// white.
pub proof fn lemma_bayer_is_two_tone(image: Raster, out: Raster, order: nat, x: int, y: int)
    requires
        bayer_of(out, image, order),
        out.contains(x, y),
    ensures
        out.at(x, y) == black() || out.at(x, y) == white(),
{
    assert(image.contains(x, y));
}

/// Thresholding an image a second time, at the same threshold, gives the
/// image that the first pass gave.
pub proof fn lemma_monochrome_twice(image: Raster, once: Raster, twice: Raster, t: Threshold)
    requires
        monochrome_of(once, image, t),
        monochrome_of(twice, once, t),
    ensures
        twice.same_image(once),
{
    assert forall|x: int, y: int| #[trigger] twice.contains(x, y) implies twice.at(x, y)
        == once.at(x, y) by {
        assert(once.contains(x, y));
        assert(image.contains(x, y));
        lemma_thresholded_idempotent(image.at(x, y), t);
    }
}

/// Mapping an image to the palette a second time gives the image that the
/// first pass gave.
pub proof fn lemma_palette_twice(image: Raster, once: Raster, twice: Raster)
    requires
        palette_of(once, image),
        palette_of(twice, once),
    ensures
        twice.same_image(once),
{
    assert forall|x: int, y: int| #[trigger] twice.contains(x, y) implies twice.at(x, y)
        == once.at(x, y) by {
        assert(once.contains(x, y));
        assert(image.contains(x, y));
        lemma_nearest_color_idempotent(image.at(x, y), fixed_palette());
    }
}

/// Dithering an image a second time changes nothing, whatever is drawn:
/// after the first pass every pixel is pure black or pure white, and those
/// two colours have only one outcome.
pub proof fn lemma_dithering_twice(image: Raster, once: Raster, twice: Raster)
    requires
        dithering_of(once, image),
        dithering_of(twice, once),
    ensures
        twice.same_image(once),
{
    assert forall|x: int, y: int| #[trigger] twice.contains(x, y) implies twice.at(x, y)
        == once.at(x, y) by {
        assert(once.contains(x, y));
        assert(image.contains(x, y));
        lemma_dither_outcomes(image.at(x, y), once.at(x, y));
        lemma_dither_outcomes(once.at(x, y), twice.at(x, y));
    }
}

/// Dithering an image against the same matrix a second time gives the image
/// that the first pass gave.
pub proof fn lemma_bayer_twice(image: Raster, once: Raster, twice: Raster, order: nat)
    requires
        bayer_of(once, image, order),
        bayer_of(twice, once, order),
    ensures
        twice.same_image(once),
{
    assert forall|x: int, y: int| #[trigger] twice.contains(x, y) implies twice.at(x, y)
        == once.at(x, y) by {
        assert(once.contains(x, y));
        assert(image.contains(x, y));
        let side = bayer_side(order) as int;
        lemma_bayer_level_below_divisor(order, y % side, x % side);
        lemma_ordered_idempotent(
            image.at(x, y),
            tiled_level(order, y, x) as int,
            bayer_divisor(order) as int,
        );
    }
}

} // verus!
