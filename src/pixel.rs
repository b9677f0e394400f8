use vstd::prelude::*;

verus! {

/// One RGBA sample, eight bits per channel.
#[derive(Clone, Copy, Debug, PartialEq, Eq, Structural)]
pub struct Pixel {
    pub r: u8,
    pub g: u8,
    pub b: u8,
    pub a: u8,
}

/// Slot of the colour cache that a pixel maps to.
pub open spec fn hash_index(p: Pixel) -> int {
    (3 * p.r + 5 * p.g + 7 * p.b + 11 * p.a) % 64
}

impl Pixel {
    pub fn new(r: u8, g: u8, b: u8, a: u8) -> (p: Pixel)
        ensures
            p == (Pixel { r, g, b, a }),
    {
        Pixel { r, g, b, a }
    }
}

} // verus!
