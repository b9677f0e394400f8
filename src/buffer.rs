use vstd::prelude::*;
use crate::pixel::Pixel;
use crate::format::{MAX_RUN, be_bytes, end_marker, header_bytes, index_byte, literal_bytes, luma_bytes, magic, run_byte, small_delta_byte};

verus! {

/// Append-only output of one encode: the header, then the chunks.
pub struct ImageBuffer {
    bytes: Vec<u8>,
}

impl View for ImageBuffer {
    type V = Seq<u8>;

    closed spec fn view(&self) -> Seq<u8> {
        self.bytes@
    }
}

fn push_be(v: &mut Vec<u8>, x: u32)
    ensures
        final(v)@ == old(v)@ + be_bytes(x),
{
    v.push((x / 0x1000000) as u8);
    v.push(((x / 0x10000) % 256) as u8);
    v.push(((x / 0x100) % 256) as u8);
    v.push((x % 256) as u8);
    assert(final(v)@ =~= old(v)@ + be_bytes(x));
}

impl ImageBuffer {
    /// A buffer that holds the 14-byte header and nothing else.
    pub fn new(width: u32, height: u32, channels: u8, colorspace: u8) -> (r: ImageBuffer)
        ensures
            r@ == header_bytes(width, height, channels, colorspace),
    {
        let mut bytes: Vec<u8> = Vec::new();
        bytes.push(0x71);
        bytes.push(0x6f);
        bytes.push(0x69);
        bytes.push(0x66);
        assert(bytes@ =~= magic());
        push_be(&mut bytes, width);
        push_be(&mut bytes, height);
        bytes.push(channels);
        bytes.push(colorspace);
        let r = ImageBuffer { bytes };
        assert(r@ =~= header_bytes(width, height, channels, colorspace));
        r
    }

    /// Appends a run chunk for `length` repeats of the previous pixel.
    pub fn add_run_pixels(&mut self, length: u8)
        requires
            1 <= length <= MAX_RUN,
        ensures
            final(self)@ == old(self)@.push(run_byte(length as int)),
    {
        self.bytes.push(0xc0 + (length - 1));
    }

    /// Appends a cache index chunk.
    pub fn add_seen_pixel(&mut self, index: u8)
        requires
            index < 64,
        ensures
            final(self)@ == old(self)@.push(index_byte(index as int)),
    {
        self.bytes.push(index);
    }

    /// Appends a small delta chunk.
    pub fn add_small_diff(&mut self, dr: i32, dg: i32, db: i32)
        requires
            -2 <= dr <= 1,
            -2 <= dg <= 1,
            -2 <= db <= 1,
        ensures
            final(self)@ == old(self)@.push(small_delta_byte(dr as int, dg as int, db as int)),
    {
        let v: i32 = 0x40 + (dr + 2) * 16 + (dg + 2) * 4 + (db + 2);
        self.bytes.push(v as u8);
    }

    /// Appends a luma chunk.
    pub fn add_luma_diff(&mut self, dg: i32, dr_dg: i32, db_dg: i32)
        requires
            -32 <= dg <= 31,
            -8 <= dr_dg <= 7,
            -8 <= db_dg <= 7,
        ensures
            final(self)@ == old(self)@ + luma_bytes(dg as int, dr_dg as int, db_dg as int),
    {
        let first: i32 = 0x80 + dg + 32;
        let second: i32 = (dr_dg + 8) * 16 + (db_dg + 8);
        self.bytes.push(first as u8);
        self.bytes.push(second as u8);
        assert(final(self)@ =~= old(self)@ + luma_bytes(dg as int, dr_dg as int, db_dg as int));
    }

    /// Appends a literal chunk, with the alpha byte when `with_alpha` holds.
    pub fn add_literal(&mut self, pixel: &Pixel, with_alpha: bool)
        ensures
            final(self)@ == old(self)@ + literal_bytes(*pixel, with_alpha),
    {
        if with_alpha {
            self.bytes.push(0xff);
        } else {
            self.bytes.push(0xfe);
        }
        self.bytes.push(pixel.r);
        self.bytes.push(pixel.g);
        self.bytes.push(pixel.b);
        if with_alpha {
            self.bytes.push(pixel.a);
        }
        assert(final(self)@ =~= old(self)@ + literal_bytes(*pixel, with_alpha));
    }

    /// Appends the end marker and hands out the finished stream.
    pub fn finish(self) -> (r: Vec<u8>)
        ensures
            r@ == self@ + end_marker(),
    {
        let mut bytes = self.bytes;
        let mut i: usize = 0;
        while i < 7
            invariant
                i <= 7,
                bytes@ == self@ + Seq::new(i as nat, |k: int| 0u8),
            decreases 7 - i,
        {
            bytes.push(0);
            i = i + 1;
            assert(bytes@ =~= self@ + Seq::new(i as nat, |k: int| 0u8));
        }
        bytes.push(1);
        assert(bytes@ =~= self@ + end_marker());
        bytes
    }
}

} // verus!
