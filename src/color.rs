use vstd::prelude::*;

verus! {

/// A packed 8-bit RGBA color. A write with a color replaces the destination
/// pixel's four channels verbatim: there is no blending.
#[derive(Clone, Copy, Debug, PartialEq, Eq, Structural)]
pub struct Color {
    pub r: u8,
    pub g: u8,
    pub b: u8,
    pub a: u8,
}

impl Color {
    /// Opaque black.
    pub fn black() -> (c: Color)
        ensures
            c == (Color { r: 0, g: 0, b: 0, a: 255 }),
    {
        Color { r: 0, g: 0, b: 0, a: 255 }
    }

    /// Opaque white.
    pub fn white() -> (c: Color)
        ensures
            c == (Color { r: 255, g: 255, b: 255, a: 255 }),
    {
        Color { r: 255, g: 255, b: 255, a: 255 }
    }

    /// Opaque red.
    pub fn red() -> (c: Color)
        ensures
            c == (Color { r: 255, g: 0, b: 0, a: 255 }),
    {
        Color { r: 255, g: 0, b: 0, a: 255 }
    }

    /// Opaque green.
    pub fn green() -> (c: Color)
        ensures
            c == (Color { r: 0, g: 255, b: 0, a: 255 }),
    {
        Color { r: 0, g: 255, b: 0, a: 255 }
    }

    /// Opaque blue.
    pub fn blue() -> (c: Color)
        ensures
            c == (Color { r: 0, g: 0, b: 255, a: 255 }),
    {
        Color { r: 0, g: 0, b: 255, a: 255 }
    }

    /// Opaque yellow.
    pub fn yellow() -> (c: Color)
        ensures
            c == (Color { r: 255, g: 255, b: 0, a: 255 }),
    {
        Color { r: 255, g: 255, b: 0, a: 255 }
    }

    /// Opaque cyan.
    pub fn cyan() -> (c: Color)
        ensures
            c == (Color { r: 0, g: 255, b: 255, a: 255 }),
    {
        Color { r: 0, g: 255, b: 255, a: 255 }
    }

    /// Opaque magenta.
    pub fn magenta() -> (c: Color)
        ensures
            c == (Color { r: 255, g: 0, b: 255, a: 255 }),
    {
        Color { r: 255, g: 0, b: 255, a: 255 }
    }

    /// An opaque color from its three channels.
    pub fn rgb(r: u8, g: u8, b: u8) -> (c: Color)
        ensures
            c == (Color { r, g, b, a: 255 }),
    {
        Color { r, g, b, a: 255 }
    }

    /// The channel at position `i` of the packed layout (0 red, 1 green,
    /// 2 blue, 3 alpha).
    pub open spec fn channel(self, i: int) -> u8 {
        if i == 0 {
            self.r
        } else if i == 1 {
            self.g
        } else if i == 2 {
            self.b
        } else {
            self.a
        }
    }

    /// The four bytes in the order they are stored.
    pub open spec fn bytes(self) -> Seq<u8> {
        seq![self.r, self.g, self.b, self.a]
    }
}

} // verus!
