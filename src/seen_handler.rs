use vstd::prelude::*;
use crate::buffer::ImageBuffer;
use crate::format::{index_byte, initial_model};
use crate::pixel::{Pixel, hash_index};

verus! {

/// The 64-slot colour cache: slot `i` holds the pixel last stored whose hash
/// is `i`.
pub struct SeenHandler {
    seen_pixels: Vec<Pixel>,
}

impl View for SeenHandler {
    type V = Seq<Pixel>;

    closed spec fn view(&self) -> Seq<Pixel> {
        self.seen_pixels@
    }
}

impl SeenHandler {
    /// A cache whose 64 slots hold the all-zero pixel.
    pub fn new() -> (s: SeenHandler)
        ensures
            s@ == initial_model().cache,
    {
        let mut v: Vec<Pixel> = Vec::new();
        let mut i: usize = 0;
        while i < 64
            invariant
                i <= 64,
                v@ == Seq::new(i as nat, |k: int| Pixel { r: 0, g: 0, b: 0, a: 0 }),
            decreases 64 - i,
        {
            v.push(Pixel { r: 0, g: 0, b: 0, a: 0 });
            i = i + 1;
            assert(v@ =~= Seq::new(i as nat, |k: int| Pixel { r: 0, g: 0, b: 0, a: 0 }));
        }
        let s = SeenHandler { seen_pixels: v };
        assert(s@ =~= initial_model().cache);
        s
    }

    /// Cache slot of a pixel: `(r*3 + g*5 + b*7 + a*11) mod 64`. As 64
    /// divides 256, wrapping each step at eight bits gives the same slot.
    pub fn hash(pixel: &Pixel) -> (h: u8)
        ensures
            h as int == hash_index(*pixel),
            h < 64,
    {
        let s: u32 = 3 * (pixel.r as u32) + 5 * (pixel.g as u32) + 7 * (pixel.b as u32) + 11 * (
        pixel.a as u32);
        (s % 64) as u8
    }

    /// Stores `pixel` in its slot.
    pub fn add_pixel(&mut self, pixel: &Pixel)
        requires
            old(self)@.len() == 64,
        ensures
            final(self)@ == old(self)@.update(hash_index(*pixel), *pixel),
    {
        let h = SeenHandler::hash(pixel) as usize;
        self.seen_pixels.set(h, *pixel);
    }

    fn contains(&self, pixel: &Pixel) -> (r: bool)
        requires
            self@.len() == 64,
        ensures
            r == (self@[hash_index(*pixel)] == *pixel),
    {
        let h = SeenHandler::hash(pixel) as usize;
        self.seen_pixels[h] == *pixel
    }

    /// The pixel held in slot `index`.
    pub fn get(&self, index: u8) -> (p: Pixel)
        requires
            self@.len() == 64,
            index < 64,
        ensures
            p == self@[index as int],
    {
        self.seen_pixels[index as usize]
    }

    /// Offers `pixel` to the cache when no earlier chunk kind took it: a hit
    /// writes an index chunk and marks it handled. Stores the pixel in its slot
    /// either way.
    pub fn handle(&mut self, qoi_buffer: &mut ImageBuffer, pixel: &Pixel, handled: &mut bool)
        requires
            old(self)@.len() == 64,
        ensures
            final(self)@ == old(self)@.update(hash_index(*pixel), *pixel),
            !*old(handled) && old(self)@[hash_index(*pixel)] == *pixel ==> {
                &&& final(qoi_buffer)@ == old(qoi_buffer)@.push(index_byte(hash_index(*pixel)))
                &&& *final(handled)
            },
            !(!*old(handled) && old(self)@[hash_index(*pixel)] == *pixel) ==> {
                &&& final(qoi_buffer)@ == old(qoi_buffer)@
                &&& *final(handled) == *old(handled)
            },
    {
        if !*handled {
            if self.contains(pixel) {
                qoi_buffer.add_seen_pixel(SeenHandler::hash(pixel));
                *handled = true;
            }
        }
        self.add_pixel(pixel);
    }
}

} // verus!
