use crate::color::{black, Color};
use vstd::prelude::*;

verus! {

/// A rectangular grid of colours with a fixed width and height, kept in an
/// `image::RgbImage`. What it holds is known to the verifier only through
/// `raster_size` and `raster_pixels`.
#[verifier::external_body]
pub struct Raster {
    buffer: image::RgbImage,
}

/// Width and height of a raster, in that order: what
/// `ImageBuffer::dimensions` returns.
pub uninterp spec fn raster_size(raster: Raster) -> (nat, nat);

/// The colours a raster holds, keyed by `(x, y)`: column first, row second.
/// Only keys inside the raster carry meaning.
pub uninterp spec fn raster_pixels(raster: Raster) -> Map<(int, int), Color>;

/// Largest number of bytes a vector can hold.
pub open spec fn max_buffer_len() -> int {
    isize::MAX as int
}

/// `ImageBuffer::new`: a zero-filled buffer of the given dimensions, so every
/// pixel is black. The outside function panics when three bytes per pixel
/// exceed what a vector can hold; such dimensions are excluded.
#[verifier::external_body]
fn buffer_new(width: u32, height: u32) -> (raster: Raster)
    requires
        3 * width * height <= max_buffer_len(),
    ensures
        raster_size(raster) == (width as nat, height as nat),
        forall|x: int, y: int|
            0 <= x < width && 0 <= y < height ==> #[trigger] raster_pixels(raster)[(x, y)]
                == black(),
{
    Raster { buffer: image::RgbImage::new(width, height) }
}

/// `ImageBuffer::dimensions`: width and height, as stored in the buffer.
#[verifier::external_body]
fn buffer_dimensions(raster: &Raster) -> (size: (u32, u32))
    ensures
        size.0 == raster_size(*raster).0,
        size.1 == raster_size(*raster).1,
{
    raster.buffer.dimensions()
}

/// `ImageBuffer::get_pixel`: the colour stored at column `x`, row `y`. The
/// outside function panics outside the buffer, so both coordinates must lie
/// inside it.
#[verifier::external_body]
fn buffer_get(raster: &Raster, x: u32, y: u32) -> (c: Color)
    requires
        x < raster_size(*raster).0,
        y < raster_size(*raster).1,
    ensures
        c == raster_pixels(*raster)[(x as int, y as int)],
{
    let rgb = raster.buffer.get_pixel(x, y);
    Color { r: rgb.0[0], g: rgb.0[1], b: rgb.0[2] }
}

/// `ImageBuffer::put_pixel`: overwrites the colour at column `x`, row `y` and
/// nothing else; the dimensions stay as they were. The outside function
/// panics outside the buffer, so both coordinates must lie inside it.
#[verifier::external_body]
fn buffer_put(raster: &mut Raster, x: u32, y: u32, c: Color)
    requires
        x < raster_size(*old(raster)).0,
        y < raster_size(*old(raster)).1,
    ensures
        raster_size(*final(raster)) == raster_size(*old(raster)),
        raster_pixels(*final(raster)) == raster_pixels(*old(raster)).insert(
            (x as int, y as int),
            c,
        ),
{
    raster.buffer.put_pixel(x, y, image::Rgb([c.r, c.g, c.b]));
}

impl Raster {
    /// The number of columns.
    pub open spec fn width(self) -> nat {
        raster_size(self).0
    }

    /// The number of rows.
    pub open spec fn height(self) -> nat {
        raster_size(self).1
    }

    /// Whether `(x, y)` names a cell of this raster.
    pub open spec fn contains(self, x: int, y: int) -> bool {
        0 <= x < self.width() && 0 <= y < self.height()
    }

    /// The colour at column `x`, row `y`.
    pub open spec fn at(self, x: int, y: int) -> Color {
        raster_pixels(self)[(x, y)]
    }

    /// Same width and height.
    pub open spec fn same_size(self, other: Raster) -> bool {
        self.width() == other.width() && self.height() == other.height()
    }

    /// Same width, same height and the same colour in every cell.
    pub open spec fn same_image(self, other: Raster) -> bool {
        &&& self.same_size(other)
        &&& forall|x: int, y: int| #[trigger]
            self.contains(x, y) ==> self.at(x, y) == other.at(x, y)
    }

    /// An all-black raster of the given dimensions, or `None` when its
    /// buffer of three bytes per pixel could not be held in memory.
    pub fn new(width: u32, height: u32) -> (made: Option<Raster>)
        ensures
            made is Some <==> 3 * width * height <= max_buffer_len(),
            made matches Some(raster) ==> {
                &&& raster.width() == width
                &&& raster.height() == height
                &&& forall|x: int, y: int| #[trigger]
                    raster.contains(x, y) ==> raster.at(x, y) == black()
            },
    {
        assert(width * height <= 0xffff_ffff * 0xffff_ffff) by (nonlinear_arith)
            requires
                width <= 0xffff_ffff,
                height <= 0xffff_ffff,
        ;
        let cells: u64 = (width as u64) * (height as u64);
        assert(3 * width * height == 3 * (width * height)) by (nonlinear_arith);
        if 3 * (cells as u128) <= isize::MAX as u128 {
            Some(buffer_new(width, height))
        } else {
            None
        }
    }

    /// Width and height, in that order.
    pub fn dimensions(&self) -> (dims: (u32, u32))
        ensures
            dims.0 == self.width(),
            dims.1 == self.height(),
    {
        buffer_dimensions(self)
    }

    /// The colour at column `x`, row `y`, or `None` outside the raster.
    pub fn get(&self, x: u32, y: u32) -> (found: Option<Color>)
        ensures
            found == if self.contains(x as int, y as int) {
                Some(self.at(x as int, y as int))
            } else {
                None
            },
    {
        let (width, height) = buffer_dimensions(self);
        if x < width && y < height {
            Some(buffer_get(self, x, y))
        } else {
            None
        }
    }

    /// Stores `c` at column `x`, row `y` and says so; outside the raster
    /// nothing changes and the answer is `false`.
    pub fn set(&mut self, x: u32, y: u32, c: Color) -> (stored: bool)
        ensures
            stored == old(self).contains(x as int, y as int),
            final(self).same_size(*old(self)),
            stored ==> raster_pixels(*final(self)) == raster_pixels(*old(self)).insert(
                (x as int, y as int),
                c,
            ),
            !stored ==> *final(self) == *old(self),
    {
        let (width, height) = buffer_dimensions(self);
        if x < width && y < height {
            buffer_put(self, x, y, c);
            true
        } else {
            false
        }
    }
}

} // verus!
