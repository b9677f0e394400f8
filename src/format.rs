use vstd::prelude::*;
use crate::pixel::{Pixel, hash_index};

verus! {

/// The largest run that one run chunk can hold.
pub const MAX_RUN: u8 = 62;

/// Big-endian bytes of a 32-bit value.
pub open spec fn be_bytes(v: u32) -> Seq<u8> {
    seq![
        (v / 0x1000000) as u8,
        ((v / 0x10000) % 256) as u8,
        ((v / 0x100) % 256) as u8,
        (v % 256) as u8,
    ]
}

/// The four magic bytes `"qoif"`.
pub open spec fn magic() -> Seq<u8> {
    seq![0x71u8, 0x6fu8, 0x69u8, 0x66u8]
}

/// The 14-byte header.
pub open spec fn header_bytes(width: u32, height: u32, channels: u8, colorspace: u8) -> Seq<u8> {
    magic() + be_bytes(width) + be_bytes(height) + seq![channels, colorspace]
}

/// Channel byte of the header: 4 with an alpha channel, else 3.
pub open spec fn channel_count(has_alpha: bool) -> u8 {
    if has_alpha {
        4
    } else {
        3
    }
}

/// The end-of-stream marker: seven zero bytes and a one.
pub open spec fn end_marker() -> Seq<u8> {
    seq![0u8, 0u8, 0u8, 0u8, 0u8, 0u8, 0u8, 1u8]
}

/// Run chunk for `n` repeats (1 to 62): tag `11`, count minus one.
pub open spec fn run_byte(n: int) -> u8 {
    (0xc0 + n - 1) as u8
}

/// Cache index chunk: tag `00`, slot in the low six bits.
pub open spec fn index_byte(i: int) -> u8 {
    i as u8
}

/// Small delta chunk: tag `01`, three deltas in [-2, 1] biased by 2.
pub open spec fn small_delta_byte(dr: int, dg: int, db: int) -> u8 {
    (0x40 + (dr + 2) * 16 + (dg + 2) * 4 + (db + 2)) as u8
}

/// Luma chunk: tag `10` with green delta biased by 32, then the red and blue
/// deltas relative to green, each biased by 8.
pub open spec fn luma_bytes(dg: int, dr_dg: int, db_dg: int) -> Seq<u8> {
    seq![(0x80 + dg + 32) as u8, ((dr_dg + 8) * 16 + (db_dg + 8)) as u8]
}

/// Literal chunk: tag, then red, green, blue and, when asked, alpha.
pub open spec fn literal_bytes(p: Pixel, with_alpha: bool) -> Seq<u8> {
    if with_alpha {
        seq![0xffu8, p.r, p.g, p.b, p.a]
    } else {
        seq![0xfeu8, p.r, p.g, p.b]
    }
}

/// Difference `cur - prev` wrapped to a signed eight-bit value.
pub open spec fn wrap_delta(cur: u8, prev: u8) -> int {
    let d = cur - prev;
    if d > 127 {
        d - 256
    } else if d < -128 {
        d + 256
    } else {
        d
    }
}

/// Wrapped red delta from `prev` to `p`.
pub open spec fn delta_r(prev: Pixel, p: Pixel) -> int {
    wrap_delta(p.r, prev.r)
}

/// Wrapped green delta from `prev` to `p`.
pub open spec fn delta_g(prev: Pixel, p: Pixel) -> int {
    wrap_delta(p.g, prev.g)
}

/// Wrapped blue delta from `prev` to `p`.
pub open spec fn delta_b(prev: Pixel, p: Pixel) -> int {
    wrap_delta(p.b, prev.b)
}

/// Alpha unchanged and each colour delta in [-2, 1].
pub open spec fn small_delta_fits(prev: Pixel, p: Pixel) -> bool {
    &&& p.a == prev.a
    &&& -2 <= delta_r(prev, p) <= 1
    &&& -2 <= delta_g(prev, p) <= 1
    &&& -2 <= delta_b(prev, p) <= 1
}

/// Alpha unchanged, green delta in [-32, 31], red and blue relative to green
/// in [-8, 7].
pub open spec fn luma_fits(prev: Pixel, p: Pixel) -> bool {
    &&& p.a == prev.a
    &&& -32 <= delta_g(prev, p) <= 31
    &&& -8 <= delta_r(prev, p) - delta_g(prev, p) <= 7
    &&& -8 <= delta_b(prev, p) - delta_g(prev, p) <= 7
}

/// Bytes of the delta chunk for `p` after `prev`, if one fits.
pub open spec fn delta_bytes(prev: Pixel, p: Pixel) -> Seq<u8> {
    let dr = delta_r(prev, p);
    let dg = delta_g(prev, p);
    let db = delta_b(prev, p);
    if small_delta_fits(prev, p) {
        seq![small_delta_byte(dr, dg, db)]
    } else if luma_fits(prev, p) {
        luma_bytes(dg, dr - dg, db - dg)
    } else {
        Seq::empty()
    }
}

/// Whether a literal chunk carries the alpha byte.
pub open spec fn literal_has_alpha(p: Pixel, has_alpha: bool) -> bool {
    has_alpha || p.a != 255
}

/// What the encoder knows before each pixel: the previous pixel, the length
/// of the run not yet written, and the 64 cache slots.
pub struct EncoderModel {
    pub prev: Pixel,
    pub run: nat,
    pub cache: Seq<Pixel>,
}

/// The previous pixel before the first one: opaque black.
pub open spec fn start_pixel() -> Pixel {
    Pixel { r: 0, g: 0, b: 0, a: 255 }
}

/// What every cache slot holds at the start.
pub open spec fn zero_pixel() -> Pixel {
    Pixel { r: 0, g: 0, b: 0, a: 0 }
}

/// The state before the first pixel.
pub open spec fn initial_model() -> EncoderModel {
    EncoderModel { prev: start_pixel(), run: 0, cache: Seq::new(64, |i: int| zero_pixel()) }
}

/// Bytes that write out a pending run of `run` pixels.
pub open spec fn run_flush(run: nat) -> Seq<u8> {
    if run > 0 {
        seq![run_byte(run as int)]
    } else {
        Seq::empty()
    }
}

/// Chunk for a pixel that differs from the previous one: a cache hit, else a
/// delta, else a literal.
pub open spec fn body_bytes(m: EncoderModel, p: Pixel, has_alpha: bool) -> Seq<u8> {
    if m.cache[hash_index(p)] == p {
        seq![index_byte(hash_index(p))]
    } else if small_delta_fits(m.prev, p) || luma_fits(m.prev, p) {
        delta_bytes(m.prev, p)
    } else {
        literal_bytes(p, literal_has_alpha(p, has_alpha))
    }
}

/// Bytes written when `p` is processed in state `m`.
pub open spec fn pixel_bytes(m: EncoderModel, p: Pixel, has_alpha: bool) -> Seq<u8> {
    if p == m.prev {
        if m.run == MAX_RUN {
            seq![run_byte(MAX_RUN as int)]
        } else {
            Seq::empty()
        }
    } else {
        run_flush(m.run) + body_bytes(m, p, has_alpha)
    }
}

/// State after processing `p` in state `m`.
pub open spec fn next_model(m: EncoderModel, p: Pixel) -> EncoderModel {
    EncoderModel {
        prev: p,
        run: if p != m.prev {
            0
        } else if m.run == MAX_RUN {
            1
        } else {
            m.run + 1
        },
        cache: m.cache.update(hash_index(p), p),
    }
}

/// State after processing `px` in order from the initial state.
pub open spec fn model_after(px: Seq<Pixel>) -> EncoderModel
    decreases px.len(),
{
    if px.len() == 0 {
        initial_model()
    } else {
        next_model(model_after(px.drop_last()), px.last())
    }
}

/// Chunk bytes written while processing `px`, before the final run flush.
pub open spec fn chunk_bytes(px: Seq<Pixel>, has_alpha: bool) -> Seq<u8>
    decreases px.len(),
{
    if px.len() == 0 {
        Seq::empty()
    } else {
        chunk_bytes(px.drop_last(), has_alpha) + pixel_bytes(
            model_after(px.drop_last()),
            px.last(),
            has_alpha,
        )
    }
}

/// The whole encoded stream of an image.
pub open spec fn encoding(
    width: u32,
    height: u32,
    has_alpha: bool,
    colorspace: u8,
    px: Seq<Pixel>,
) -> Seq<u8> {
    header_bytes(width, height, channel_count(has_alpha), colorspace) + chunk_bytes(px, has_alpha)
        + run_flush(model_after(px).run) + end_marker()
}

} // verus!
