use vstd::prelude::*;

verus! {

/// A pixel position: origin at the top left, `y` growing downward.
#[derive(Debug, Default, Copy, Clone, PartialEq, Eq, Structural)]
pub struct ScreenCoordinate {
    pub x: i32,
    pub y: i32,
}

/// A 24-bit RGB color.
#[derive(Debug, Default, Copy, Clone, PartialEq, Eq, Structural)]
pub struct Color {
    pub r: u8,
    pub g: u8,
    pub b: u8,
}

impl Color {
    /// The color with all three channels zero.
    pub fn black() -> (c: Color)
        ensures
            c.r == 0 && c.g == 0 && c.b == 0,
    {
        Color { r: 0, g: 0, b: 0 }
    }
}

} // verus!
