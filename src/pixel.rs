//! Pixels of the color layers.

use vstd::prelude::*;

verus! {

/// An 8-bit red, green and blue triple.
#[derive(Debug, Clone, Copy, PartialEq, Eq, Structural)]
pub struct Rgb {
    pub r: u8,
    pub g: u8,
    pub b: u8,
}

/// The pixel of cells without a sample.
pub open spec fn black() -> Rgb {
    Rgb { r: 0, g: 0, b: 0 }
}

pub fn black_pixel() -> (p: Rgb)
    ensures
        p == black(),
{
    Rgb { r: 0, g: 0, b: 0 }
}

} // verus!
