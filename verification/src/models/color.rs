use vstd::prelude::*;

verus! {

/// Opaque black, as four bytes: alpha, red, green, blue, from the highest
/// down.
pub const BLACK: u32 = 0xFF00_0000;

/// Opaque dark gray.
pub const DARK_GRAY: u32 = 0xFF44_4444;

/// Opaque red.
pub const RED: u32 = 0xFFFF_0000;

/// Opaque cyan.
pub const CYAN: u32 = 0xFF00_FFFF;

/// Opaque green.
pub const GREEN: u32 = 0xFF00_FF00;

/// A colour as four bytes: alpha, red, green, blue, from the highest down.
#[derive(Copy, Clone, Debug, PartialEq, Eq, Structural)]
pub struct Color {
    pub argb: u32,
}

impl Color {
    /// The colour with the given bytes.
    pub fn new(argb: u32) -> (color: Color)
        ensures
            color.argb == argb,
    {
        Color { argb }
    }
}

impl Default for Color {
    fn default() -> (color: Color)
        ensures
            color.argb == 0,
    {
        Color { argb: 0 }
    }
}

} // verus!
