use vstd::prelude::*;
use crate::errors::QOIError;
use crate::format::{initial_model, magic, start_pixel};
use vstd::string::StrSliceExecFns;
use crate::pixel::{Pixel, hash_index};
use crate::seen_handler::SeenHandler;

verus! {

/// Header fields and pixels read back from a QOI stream.
pub struct DecodedImage {
    pub width: u32,
    pub height: u32,
    pub channels: u8,
    pub colorspace: u8,
    pub pixels: Vec<Pixel>,
}

/// What the decoder knows before each pixel: the previous pixel, the cache,
/// the repeats of the previous pixel still owed by a run chunk, and where the
/// next chunk starts.
pub struct DecoderModel {
    pub prev: Pixel,
    pub cache: Seq<Pixel>,
    pub run: nat,
    pub pos: int,
}

pub open spec fn initial_decoder() -> DecoderModel {
    DecoderModel { prev: start_pixel(), cache: initial_model().cache, run: 0, pos: 14 }
}

/// Big-endian value of four bytes.
pub open spec fn be_value(b: Seq<u8>, at: int) -> int {
    b[at] * 0x1000000 + b[at + 1] * 0x10000 + b[at + 2] * 0x100 + b[at + 3]
}

/// Whether the stream starts with a well-formed header.
pub open spec fn header_ok(b: Seq<u8>) -> bool {
    &&& b.len() >= 14
    &&& b.subrange(0, 4) == magic()
    &&& b[12] == 3 || b[12] == 4
    &&& b[13] == 0 || b[13] == 1
}

/// Number of pixels that the header announces.
pub open spec fn pixel_count(b: Seq<u8>) -> nat {
    (be_value(b, 4) * be_value(b, 8)) as nat
}

/// Length in bytes of the chunk whose first byte is `t`.
pub open spec fn chunk_len(t: u8) -> int {
    if t == 0xfe {
        4
    } else if t == 0xff {
        5
    } else if 0x80 <= t < 0xc0 {
        2
    } else {
        1
    }
}

/// `x + d` wrapped to eight bits.
pub open spec fn add_wrap(x: u8, d: int) -> u8 {
    ((x + d) % 256) as u8
}

/// The pixel given by the chunk at `d.pos`.
pub open spec fn chunk_pixel(b: Seq<u8>, d: DecoderModel) -> Pixel {
    let t = b[d.pos];
    let p = d.prev;
    if t == 0xfe {
        Pixel { r: b[d.pos + 1], g: b[d.pos + 2], b: b[d.pos + 3], a: p.a }
    } else if t == 0xff {
        Pixel { r: b[d.pos + 1], g: b[d.pos + 2], b: b[d.pos + 3], a: b[d.pos + 4] }
    } else if t < 0x40 {
        d.cache[t as int]
    } else if t < 0x80 {
        Pixel {
            r: add_wrap(p.r, (t / 16) % 4 - 2),
            g: add_wrap(p.g, (t / 4) % 4 - 2),
            b: add_wrap(p.b, t % 4 - 2),
            a: p.a,
        }
    } else if t < 0xc0 {
        let dg = t % 64 - 32;
        let s = b[d.pos + 1];
        Pixel {
            r: add_wrap(p.r, dg + s / 16 - 8),
            g: add_wrap(p.g, dg),
            b: add_wrap(p.b, dg + s % 16 - 8),
            a: p.a,
        }
    } else {
        p
    }
}

/// Decoder state after producing one more pixel, or `None` where the stream
/// ends inside a chunk.
pub open spec fn decode_step(b: Seq<u8>, d: DecoderModel) -> Option<DecoderModel> {
    if d.run > 0 {
        Some(
            DecoderModel {
                prev: d.prev,
                cache: d.cache.update(hash_index(d.prev), d.prev),
                run: (d.run - 1) as nat,
                pos: d.pos,
            },
        )
    } else if 0 <= d.pos < b.len() && d.pos + chunk_len(b[d.pos]) <= b.len() {
        let p = chunk_pixel(b, d);
        let t = b[d.pos];
        Some(
            DecoderModel {
                prev: p,
                cache: d.cache.update(hash_index(p), p),
                run: if t >= 0xc0 && t < 0xfe {
                    (t % 64) as nat
                } else {
                    0
                },
                pos: d.pos + chunk_len(t),
            },
        )
    } else {
        None
    }
}

/// The state and pixels after decoding `n` pixels, or `None` where the
/// stream runs out first.
pub open spec fn decode_steps(b: Seq<u8>, n: nat) -> Option<(DecoderModel, Seq<Pixel>)>
    decreases n,
{
    if n == 0 {
        Some((initial_decoder(), Seq::empty()))
    } else {
        match decode_steps(b, (n - 1) as nat) {
            Some((d, px)) => match decode_step(b, d) {
                Some(d2) => Some((d2, px.push(d2.prev))),
                None => None,
            },
            None => None,
        }
    }
}

/// The pixels that a stream decodes to, where it decodes.
pub open spec fn decoded_pixels(b: Seq<u8>) -> Seq<Pixel> {
    match decode_steps(b, pixel_count(b)) {
        Some((_, px)) => px,
        None => Seq::empty(),
    }
}

/// The bytes from `start` on, at most `n` of them.
pub fn chunk(bytes: &Vec<u8>, start: usize, n: usize) -> (r: Vec<u8>)
    ensures
        start >= bytes@.len() ==> r@ == Seq::<u8>::empty(),
        start < bytes@.len() ==> r@ == bytes@.subrange(
            start as int,
            if start + n <= bytes@.len() {
                start + n
            } else {
                bytes@.len() as int
            },
        ),
{
    let mut r: Vec<u8> = Vec::new();
    if start >= bytes.len() {
        return r;
    }
    let mut i: usize = start;
    while i < bytes.len() && i - start < n
        invariant
            start <= i <= bytes@.len(),
            i - start <= n,
            r@ == bytes@.subrange(start as int, i as int),
        decreases bytes@.len() - i,
    {
        r.push(bytes[i]);
        i = i + 1;
        assert(r@ =~= bytes@.subrange(start as int, i as int));
    }
    r
}

fn read_be(bytes: &Vec<u8>, at: usize) -> (v: u32)
    requires
        at <= 8,
        at + 4 <= bytes@.len(),
    ensures
        v as int == be_value(bytes@, at as int),
{
    let b0 = bytes[at] as u32;
    let b1 = bytes[at + 1] as u32;
    let b2 = bytes[at + 2] as u32;
    let b3 = bytes[at + 3] as u32;
    assert(b0 * 0x1000000 + b1 * 0x10000 + b2 * 0x100 + b3 <= 0xffff_ffff) by (nonlinear_arith)
        requires
            b0 <= 255,
            b1 <= 255,
            b2 <= 255,
            b3 <= 255,
    ;
    b0 * 0x1000000 + b1 * 0x10000 + b2 * 0x100 + b3
}

/// `x + d` wrapped to eight bits.
fn wrap_add(x: u8, d: i32) -> (r: u8)
    requires
        -256 <= d <= 255,
    ensures
        r == add_wrap(x, d as int),
{
    let s: i32 = x as i32 + d;
    if s < 0 {
        (s + 256) as u8
    } else if s > 255 {
        (s - 256) as u8
    } else {
        s as u8
    }
}

proof fn lemma_decode_stays_none(b: Seq<u8>, m: nat, n: nat)
    requires
        m <= n,
        decode_steps(b, m) is None,
    ensures
        decode_steps(b, n) is None,
    decreases n - m,
{
    if m < n {
        lemma_decode_stays_none(b, m, (n - 1) as nat);
    }
}

fn decode_error() -> (e: QOIError)
    ensures
        e is ImageDecodeError,
{
    QOIError::ImageDecodeError(String::from_str("malformed QOI stream"))
}

/// Decodes a QOI stream: checks the header, then reads as many pixels as it
/// announces.
pub fn decode(image_bytes: &Vec<u8>) -> (r: Result<DecodedImage, QOIError>)
    ensures
        r is Ok <==> header_ok(image_bytes@) && decode_steps(
            image_bytes@,
            pixel_count(image_bytes@),
        ) is Some,
        r matches Ok(img) ==> {
            &&& img.width == be_value(image_bytes@, 4)
            &&& img.height == be_value(image_bytes@, 8)
            &&& img.channels == image_bytes@[12]
            &&& img.colorspace == image_bytes@[13]
            &&& img.pixels@ == decoded_pixels(image_bytes@)
        },
        r matches Err(e) ==> e is ImageDecodeError,
{
    let ghost b = image_bytes@;
    if image_bytes.len() < 14 {
        return Err(decode_error());
    }
    let magic_chunk = chunk(image_bytes, 0, 4);
    if !(magic_chunk[0] == 0x71 && magic_chunk[1] == 0x6f && magic_chunk[2] == 0x69
        && magic_chunk[3] == 0x66) {
        assert(b.subrange(0, 4)[0] == magic_chunk[0]);
        assert(b.subrange(0, 4)[1] == magic_chunk[1]);
        assert(b.subrange(0, 4)[2] == magic_chunk[2]);
        assert(b.subrange(0, 4)[3] == magic_chunk[3]);
        return Err(decode_error());
    }
    assert(b.subrange(0, 4) =~= magic());
    let width = read_be(image_bytes, 4);
    let height = read_be(image_bytes, 8);
    let channels = image_bytes[12];
    let colorspace = image_bytes[13];
    if !(channels == 3 || channels == 4) || !(colorspace == 0 || colorspace == 1) {
        return Err(decode_error());
    }
    let w = width as u64;
    let h = height as u64;
    assert(w * h <= 0xffff_ffff_ffff_ffff) by (nonlinear_arith)
        requires
            w <= 0xffff_ffff,
            h <= 0xffff_ffff,
    ;
    let total: u64 = w * h;
    let mut seen = SeenHandler::new();
    let mut prev = Pixel { r: 0, g: 0, b: 0, a: 255 };
    let mut run: u8 = 0;
    let mut pos: usize = 14;
    let mut pixels: Vec<Pixel> = Vec::new();
    let mut k: u64 = 0;
    while k < total
        invariant
            b == image_bytes@,
            header_ok(b),
            total as nat == pixel_count(b),
            k <= total,
            seen@.len() == 64,
            run < 64,
            14 <= pos <= b.len(),
            decode_steps(b, k as nat) == Some(
                (DecoderModel { prev, cache: seen@, run: run as nat, pos: pos as int }, pixels@),
            ),
        decreases total - k,
    {
        let ghost d = DecoderModel { prev, cache: seen@, run: run as nat, pos: pos as int };
        if run > 0 {
            run = run - 1;
            seen.add_pixel(&prev);
        } else {
            if pos >= image_bytes.len() {
                proof {
                    lemma_decode_stays_none(b, (k + 1) as nat, total as nat);
                }
                return Err(decode_error());
            }
            let t = image_bytes[pos];
            let len: usize = if t == 0xfe {
                4
            } else if t == 0xff {
                5
            } else if 0x80 <= t && t < 0xc0 {
                2
            } else {
                1
            };
            if len > image_bytes.len() - pos {
                proof {
                    lemma_decode_stays_none(b, (k + 1) as nat, total as nat);
                }
                return Err(decode_error());
            }
            let p = if t == 0xfe {
                Pixel {
                    r: image_bytes[pos + 1],
                    g: image_bytes[pos + 2],
                    b: image_bytes[pos + 3],
                    a: prev.a,
                }
            } else if t == 0xff {
                Pixel {
                    r: image_bytes[pos + 1],
                    g: image_bytes[pos + 2],
                    b: image_bytes[pos + 3],
                    a: image_bytes[pos + 4],
                }
            } else if t < 0x40 {
                seen.get(t)
            } else if t < 0x80 {
                Pixel {
                    r: wrap_add(prev.r, (t / 16 % 4) as i32 - 2),
                    g: wrap_add(prev.g, (t / 4 % 4) as i32 - 2),
                    b: wrap_add(prev.b, (t % 4) as i32 - 2),
                    a: prev.a,
                }
            } else if t < 0xc0 {
                let dg: i32 = (t % 64) as i32 - 32;
                let s = image_bytes[pos + 1];
                Pixel {
                    r: wrap_add(prev.r, dg + (s / 16) as i32 - 8),
                    g: wrap_add(prev.g, dg),
                    b: wrap_add(prev.b, dg + (s % 16) as i32 - 8),
                    a: prev.a,
                }
            } else {
                prev
            };
            run = if t >= 0xc0 && t < 0xfe {
                t % 64
            } else {
                0
            };
            pos = pos + len;
            prev = p;
            seen.add_pixel(&p);
        }
        pixels.push(prev);
        k = k + 1;
    }
    Ok(DecodedImage { width, height, channels, colorspace, pixels })
}

} // verus!
