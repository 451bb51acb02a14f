use vstd::prelude::*;

verus! {

/// The colour of one raster cell: red, green and blue, eight bits each.
#[derive(Clone, Copy, Debug, PartialEq, Eq, Structural)]
pub struct Color {
    pub r: u8,
    pub g: u8,
    pub b: u8,
}

/// Pure black, `(0, 0, 0)`.
pub open spec fn black() -> Color {
    Color { r: 0, g: 0, b: 0 }
}

/// Pure white, `(255, 255, 255)`.
pub open spec fn white() -> Color {
    Color { r: 255, g: 255, b: 255 }
}

/// Sum of the three channels, between 0 and 765.
pub open spec fn channel_sum(p: Color) -> int {
    p.r + p.g + p.b
}

/// Mean of the three channels, rounded down: a level between 0 and 255.
pub open spec fn brightness(p: Color) -> int {
    channel_sum(p) / 3
}

impl Color {
    /// Builds a colour from its three channels.
    pub fn new(r: u8, g: u8, b: u8) -> (p: Color)
        ensures
            p == (Color { r, g, b }),
    {
        Color { r, g, b }
    }

    /// Pure black.
    pub fn black() -> (p: Color)
        ensures
            p == black(),
    {
        Color { r: 0, g: 0, b: 0 }
    }

    /// Pure white.
    pub fn white() -> (p: Color)
        ensures
            p == white(),
    {
        Color { r: 255, g: 255, b: 255 }
    }

    /// Sum of the three channels.
    pub fn channel_sum(&self) -> (s: u32)
        ensures
            s == channel_sum(*self),
            s <= 765,
    {
        self.r as u32 + self.g as u32 + self.b as u32
    }

    /// Mean of the three channels, rounded down.
    pub fn brightness(&self) -> (level: u32)
        ensures
            level == brightness(*self),
            level <= 255,
    {
        self.channel_sum() / 3
    }
}

} // verus!
