//! RGBA pixels and the sentinel used for not-yet-rendered and in-set points.

use vstd::prelude::*;

verus! {

/// One RGBA pixel: four 8-bit channels.
pub struct Pixel {
    pub r: u8,
    pub g: u8,
    pub b: u8,
    pub a: u8,
}

/// The sentinel pixel: opaque black. A canvas starts with every cell holding
/// it, and points presumed to lie inside the Mandelbrot set keep it.
pub open spec fn set_pixel_spec() -> Pixel {
    Pixel { r: 0, g: 0, b: 0, a: 255 }
}

/// Builds the sentinel ("set") pixel.
pub fn set_pixel() -> (p: Pixel)
    ensures
        p == set_pixel_spec(),
{
    Pixel { r: 0, g: 0, b: 0, a: 255 }
}

impl Pixel {
    /// The four channels in R, G, B, A order, as a sink expects them.
    pub fn to_slice(&self) -> (bytes: [u8; 4])
        ensures
            bytes@ == seq![self.r, self.g, self.b, self.a],
    {
        [self.r, self.g, self.b, self.a]
    }
}

impl Clone for Pixel {
    fn clone(&self) -> (other: Self)
        ensures
            other == *self,
    {
        Pixel { r: self.r, g: self.g, b: self.b, a: self.a }
    }
}

} // verus!
