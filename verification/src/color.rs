use vstd::prelude::*;

verus! {

/// An RGBA colour with 8 bits per channel.
#[derive(Clone, Copy, Debug, PartialEq, Eq, Structural)]
pub struct Color {
    pub r: u8,
    pub g: u8,
    pub b: u8,
    pub a: u8,
}

impl Color {
    /// Builds a colour from its four channels.
    pub fn new(r: u8, g: u8, b: u8, a: u8) -> (c: Color)
        ensures
            c == (Color { r, g, b, a }),
    {
        Color { r, g, b, a }
    }

    /// Opaque white.
    #[verifier::allow_in_spec]
    pub fn white() -> Color
        returns
            (Color { r: 255, g: 255, b: 255, a: 255 }),
    {
        Color { r: 255, g: 255, b: 255, a: 255 }
    }

    /// Opaque black.
    #[verifier::allow_in_spec]
    pub fn black() -> Color
        returns
            (Color { r: 0, g: 0, b: 0, a: 255 }),
    {
        Color { r: 0, g: 0, b: 0, a: 255 }
    }

    /// The red used for maze cells in the top-down view.
    #[verifier::allow_in_spec]
    pub fn red() -> Color
        returns
            (Color { r: 230, g: 41, b: 55, a: 255 }),
    {
        Color { r: 230, g: 41, b: 55, a: 255 }
    }
}

} // verus!
