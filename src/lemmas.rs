use vstd::prelude::*;
use crate::decoder::be_value;
use crate::format::{be_bytes, channel_count, encoding, end_marker, header_bytes};
use crate::pixel::{Pixel, hash_index};

verus! {

/// Reading back the four big-endian bytes of a value gives the value.
pub proof fn lemma_be_bytes_value(v: u32)
    ensures
        be_value(be_bytes(v), 0) == v,
{
    let b = be_bytes(v);
    assert(b[0] as u32 == v / 0x1000000);
    assert(b[1] as u32 == (v / 0x10000) % 256);
    assert(b[2] as u32 == (v / 0x100) % 256);
    assert(b[3] as u32 == v % 256);
    assert((v / 0x1000000) * 0x1000000 + ((v / 0x10000) % 256) * 0x10000 + ((v / 0x100) % 256)
        * 0x100 + v % 256 == v) by (bit_vector);
}

/// Header fidelity: the encoding of a `width` x `height` image starts with
/// the header whose width and height fields read back as `width` and
/// `height`, and whose channel byte is 4 exactly when the image has alpha.
pub proof fn lemma_header_fidelity(
    width: u32,
    height: u32,
    has_alpha: bool,
    colorspace: u8,
    px: Seq<Pixel>,
)
    ensures
        ({
            let e = encoding(width, height, has_alpha, colorspace, px);
            &&& e.subrange(0, 14) == header_bytes(
                width,
                height,
                channel_count(has_alpha),
                colorspace,
            )
            &&& be_value(e, 4) == width
            &&& be_value(e, 8) == height
            &&& (e[12] == 4) == has_alpha
            &&& e[13] == colorspace
        }),
{
    let e = encoding(width, height, has_alpha, colorspace, px);
    let h = header_bytes(width, height, channel_count(has_alpha), colorspace);
    assert(e.subrange(0, 14) =~= h);
    lemma_be_bytes_value(width);
    lemma_be_bytes_value(height);
    assert(e[4] == be_bytes(width)[0] && e[5] == be_bytes(width)[1] && e[6] == be_bytes(width)[2]
        && e[7] == be_bytes(width)[3]) by {
        assert(e[4] == h[4] && e[5] == h[5] && e[6] == h[6] && e[7] == h[7]);
    }
    assert(e[8] == be_bytes(height)[0] && e[9] == be_bytes(height)[1] && e[10] == be_bytes(
        height,
    )[2] && e[11] == be_bytes(height)[3]) by {
        assert(e[8] == h[8] && e[9] == h[9] && e[10] == h[10] && e[11] == h[11]);
    }
    assert(e[12] == h[12] && e[13] == h[13]);
}

/// The header does not depend on the pixels: two images of the same size,
/// alpha mode and colour space get the same first 14 bytes.
pub proof fn lemma_header_independent_of_pixels(
    width: u32,
    height: u32,
    has_alpha: bool,
    colorspace: u8,
    px1: Seq<Pixel>,
    px2: Seq<Pixel>,
)
    ensures
        encoding(width, height, has_alpha, colorspace, px1).subrange(0, 14) == encoding(
            width,
            height,
            has_alpha,
            colorspace,
            px2,
        ).subrange(0, 14),
{
    lemma_header_fidelity(width, height, has_alpha, colorspace, px1);
    lemma_header_fidelity(width, height, has_alpha, colorspace, px2);
}

/// Every encoding ends with the eight-byte end marker, whatever the pixels.
pub proof fn lemma_ends_with_marker(
    width: u32,
    height: u32,
    has_alpha: bool,
    colorspace: u8,
    px: Seq<Pixel>,
)
    ensures
        ({
            let e = encoding(width, height, has_alpha, colorspace, px);
            &&& e.len() >= 22
            &&& e.subrange(e.len() - 8, e.len() as int) == end_marker()
        }),
{
    let e = encoding(width, height, has_alpha, colorspace, px);
    assert(e.subrange(e.len() - 8, e.len() as int) =~= end_marker());
}

/// The cache slot computed with every product and sum wrapped at eight bits
/// is the slot `hash_index` gives.
pub proof fn lemma_wrapped_hash_slot(p: Pixel)
    ensures
        (((((p.r * 3) % 256 + (p.g * 5) % 256) % 256 + (p.b * 7) % 256) % 256 + (p.a * 11) % 256)
            % 256) % 64 == hash_index(p),
{
    let (r0, g0, b0, a0) = (p.r as u32, p.g as u32, p.b as u32, p.a as u32);
    assert((((((r0 * 3) % 256 + (g0 * 5) % 256) % 256 + (b0 * 7) % 256) % 256 + (a0 * 11) % 256)
        % 256) % 64 == (r0 * 3 + g0 * 5 + b0 * 7 + a0 * 11) % 64) by (bit_vector)
        requires
            r0 < 256,
            g0 < 256,
            b0 < 256,
            a0 < 256,
    ;
}

} // verus!
