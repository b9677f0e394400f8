use vstd::prelude::*;
use crate::decoder::{
    DecoderModel, add_wrap, chunk_len, chunk_pixel, decode_step, decode_steps, decoded_pixels,
    header_ok, initial_decoder, pixel_count,
};
use crate::format::{
    EncoderModel, MAX_RUN, body_bytes, channel_count, chunk_bytes, delta_b, delta_g,
    delta_r, encoding, header_bytes, index_byte, initial_model, literal_bytes,
    literal_has_alpha, luma_bytes, luma_fits, magic, model_after, next_model, pixel_bytes,
    run_byte, run_flush, small_delta_byte, small_delta_fits, wrap_delta,
};
use crate::lemmas::lemma_header_fidelity;
use crate::pixel::{Pixel, hash_index};

verus! {

/// Length that the run pending before pixel `i`, already `r` long, reaches.
pub open spec fn run_reach(px: Seq<Pixel>, i: int, r: nat) -> nat
    decreases px.len() - i,
{
    if 0 < i < px.len() && px[i] == px[i - 1] && r < MAX_RUN {
        run_reach(px, i + 1, r + 1)
    } else {
        r
    }
}

/// Encoder state after the first `i` pixels.
pub open spec fn model_at(px: Seq<Pixel>, i: int) -> EncoderModel {
    model_after(px.take(i))
}

/// Chunk bytes written for the first `i` pixels.
pub open spec fn chunks_at(px: Seq<Pixel>, has_alpha: bool, i: int) -> Seq<u8> {
    chunk_bytes(px.take(i), has_alpha)
}

proof fn lemma_model_facts(px: Seq<Pixel>)
    ensures
        model_after(px).run <= MAX_RUN,
        model_after(px).cache.len() == 64,
        px.len() == 0 ==> model_after(px) == initial_model(),
        px.len() > 0 ==> model_after(px).prev == px.last(),
    decreases px.len(),
{
    if px.len() > 0 {
        lemma_model_facts(px.drop_last());
    }
}

proof fn lemma_step(px: Seq<Pixel>, has_alpha: bool, i: int)
    requires
        0 <= i < px.len(),
    ensures
        model_at(px, i + 1) == next_model(model_at(px, i), px[i]),
        chunks_at(px, has_alpha, i + 1) == chunks_at(px, has_alpha, i) + pixel_bytes(
            model_at(px, i),
            px[i],
            has_alpha,
        ),
        model_at(px, i).run <= MAX_RUN,
        model_at(px, i).cache.len() == 64,
        i == 0 ==> model_at(px, i) == initial_model(),
        i > 0 ==> model_at(px, i).prev == px[i - 1],
{
    assert(px.take(i + 1).drop_last() =~= px.take(i));
    lemma_model_facts(px.take(i));
}

proof fn lemma_prefix(px: Seq<Pixel>, has_alpha: bool, i: int, j: int)
    requires
        0 <= i <= j <= px.len(),
    ensures
        chunks_at(px, has_alpha, i).len() <= chunks_at(px, has_alpha, j).len(),
        forall|k: int|
            0 <= k < chunks_at(px, has_alpha, i).len() ==> chunks_at(px, has_alpha, j)[k]
                == chunks_at(px, has_alpha, i)[k],
    decreases j - i,
{
    if i < j {
        lemma_prefix(px, has_alpha, i, j - 1);
        lemma_step(px, has_alpha, j - 1);
    }
}

/// Where the chunk bytes of the first `i` pixels stand in the encoding.
proof fn lemma_stream_bytes(w: u32, h: u32, has_alpha: bool, cs: u8, px: Seq<Pixel>, i: int)
    requires
        0 <= i <= px.len(),
    ensures
        ({
            let e = encoding(w, h, has_alpha, cs, px);
            let c = chunks_at(px, has_alpha, i);
            &&& 14 + c.len() + 8 <= e.len()
            &&& forall|k: int| 0 <= k < c.len() ==> e[14 + k] == c[k]
        }),
{
    lemma_prefix(px, has_alpha, i, px.len() as int);
    assert(px.take(px.len() as int) =~= px);
    let e = encoding(w, h, has_alpha, cs, px);
    let c = chunks_at(px, has_alpha, i);
    let hd = header_bytes(w, h, channel_count(has_alpha), cs);
    assert forall|k: int| 0 <= k < c.len() implies e[14 + k] == c[k] by {
        assert(e[14 + k] == chunk_bytes(px, has_alpha)[k]);
    }
}

/// When a run is pending before pixel `i`, the byte at the end of the chunks
/// written so far is the run chunk that closes it.
proof fn lemma_run_ahead(w: u32, h: u32, has_alpha: bool, cs: u8, px: Seq<Pixel>, i: int)
    requires
        0 <= i <= px.len(),
        model_at(px, i).run > 0,
    ensures
        ({
            let e = encoding(w, h, has_alpha, cs, px);
            let r = model_at(px, i).run;
            let l = run_reach(px, i, r);
            &&& 1 <= r <= l <= MAX_RUN
            &&& 14 + chunks_at(px, has_alpha, i).len() < e.len()
            &&& e[14 + chunks_at(px, has_alpha, i).len() as int] == run_byte(l as int)
        }),
    decreases px.len() - i,
{
    let e = encoding(w, h, has_alpha, cs, px);
    let m = model_at(px, i);
    let c = chunks_at(px, has_alpha, i);
    if i == px.len() {
        assert(px.take(i) =~= px);
        lemma_model_facts(px);
        assert(e[14 + c.len() as int] == run_flush(m.run)[0]);
    } else {
        lemma_step(px, has_alpha, i);
        if i == 0 {
            assert(false);
        }
        if px[i] == px[i - 1] && m.run < MAX_RUN {
            lemma_run_ahead(w, h, has_alpha, cs, px, i + 1);
            assert(chunks_at(px, has_alpha, i + 1) =~= c);
        } else {
            lemma_stream_bytes(w, h, has_alpha, cs, px, i + 1);
            let c1 = chunks_at(px, has_alpha, i + 1);
            assert(c1[c.len() as int] == run_byte(run_reach(px, i, m.run) as int));
        }
    }
}

/// Adding back a wrapped delta gives the channel again.
proof fn lemma_add_wrap_delta(cur: u8, prev: u8)
    ensures
        add_wrap(prev, wrap_delta(cur, prev)) == cur,
{
    let d = wrap_delta(cur, prev);
    assert(prev + d == cur || prev + d == cur + 256 || prev + d == cur - 256);
    assert((prev + d) % 256 == cur as int);
}

proof fn lemma_small_fields(a: int, b: int, c: int)
    requires
        0 <= a < 4,
        0 <= b < 4,
        0 <= c < 4,
    ensures
        ({
            let t = 64 + a * 16 + b * 4 + c;
            &&& 64 <= t < 128
            &&& (t / 16) % 4 == a
            &&& (t / 4) % 4 == b
            &&& t % 4 == c
        }),
{
    let t = 64 + a * 16 + b * 4 + c;
    assert(t / 16 == 4 + a) by (nonlinear_arith)
        requires
            t == 64 + a * 16 + b * 4 + c,
            0 <= b < 4,
            0 <= c < 4,
    ;
    assert(t / 4 == 16 + a * 4 + b) by (nonlinear_arith)
        requires
            t == 64 + a * 16 + b * 4 + c,
            0 <= c < 4,
    ;
    assert((4 + a) % 4 == a);
    assert((16 + a * 4 + b) % 4 == b) by (nonlinear_arith)
        requires
            0 <= b < 4,
            0 <= a,
    ;
    assert(t % 4 == c) by (nonlinear_arith)
        requires
            t == 64 + a * 16 + b * 4 + c,
            0 <= c < 4,
            0 <= a,
            0 <= b,
    ;
}

proof fn lemma_luma_fields(x: int, y: int)
    requires
        0 <= x < 16,
        0 <= y < 16,
    ensures
        (x * 16 + y) / 16 == x,
        (x * 16 + y) % 16 == y,
{
    assert((x * 16 + y) / 16 == x && (x * 16 + y) % 16 == y) by (nonlinear_arith)
        requires
            0 <= x < 16,
            0 <= y < 16,
    ;
}

proof fn lemma_reach_at_least(px: Seq<Pixel>, i: int, r: nat)
    ensures
        run_reach(px, i, r) >= r,
    decreases px.len() - i,
{
    if 0 < i < px.len() && px[i] == px[i - 1] && r < MAX_RUN {
        lemma_reach_at_least(px, i + 1, r + 1);
    }
}

proof fn lemma_hit_decodes(b: Seq<u8>, d: DecoderModel, p: Pixel)
    requires
        0 <= d.pos < b.len(),
        d.cache.len() == 64,
        d.cache[hash_index(p)] == p,
        b[d.pos] == index_byte(hash_index(p)),
    ensures
        chunk_len(b[d.pos]) == 1,
        b[d.pos] < 0xc0,
        chunk_pixel(b, d) == p,
{
    assert(b[d.pos] as int == hash_index(p));
}

proof fn lemma_small_decodes(b: Seq<u8>, d: DecoderModel, p: Pixel)
    requires
        0 <= d.pos < b.len(),
        small_delta_fits(d.prev, p),
        b[d.pos] == small_delta_byte(delta_r(d.prev, p), delta_g(d.prev, p), delta_b(d.prev, p)),
    ensures
        chunk_len(b[d.pos]) == 1,
        b[d.pos] < 0xc0,
        chunk_pixel(b, d) == p,
{
    let q = d.prev;
    let t = b[d.pos];
    let dr = delta_r(q, p);
    let dg = delta_g(q, p);
    let db = delta_b(q, p);
    lemma_small_fields(dr + 2, dg + 2, db + 2);
    assert(t as int == 64 + (dr + 2) * 16 + (dg + 2) * 4 + (db + 2));
    lemma_add_wrap_delta(p.r, q.r);
    lemma_add_wrap_delta(p.g, q.g);
    lemma_add_wrap_delta(p.b, q.b);
}

proof fn lemma_luma_decodes(b: Seq<u8>, d: DecoderModel, p: Pixel)
    requires
        0 <= d.pos,
        d.pos + 1 < b.len(),
        luma_fits(d.prev, p),
        ({
            let dr = delta_r(d.prev, p);
            let dg = delta_g(d.prev, p);
            let db = delta_b(d.prev, p);
            let l = luma_bytes(dg, dr - dg, db - dg);
            b[d.pos] == l[0] && b[d.pos + 1] == l[1]
        }),
    ensures
        chunk_len(b[d.pos]) == 2,
        b[d.pos] < 0xc0,
        chunk_pixel(b, d) == p,
{
    let q = d.prev;
    let t = b[d.pos];
    let s = b[d.pos + 1];
    let dr = delta_r(q, p);
    let dg = delta_g(q, p);
    let db = delta_b(q, p);
    assert(t as int == 128 + dg + 32);
    assert(t % 64 == dg + 32);
    assert(s as int == (dr - dg + 8) * 16 + (db - dg + 8));
    lemma_luma_fields(dr - dg + 8, db - dg + 8);
    lemma_add_wrap_delta(p.r, q.r);
    lemma_add_wrap_delta(p.g, q.g);
    lemma_add_wrap_delta(p.b, q.b);
}

proof fn lemma_literal_decodes(b: Seq<u8>, d: DecoderModel, p: Pixel, with_alpha: bool)
    requires
        0 <= d.pos,
        d.pos + literal_bytes(p, with_alpha).len() <= b.len(),
        forall|k: int|
            0 <= k < literal_bytes(p, with_alpha).len() ==> b[d.pos + k] == literal_bytes(
                p,
                with_alpha,
            )[k],
        !with_alpha ==> d.prev.a == p.a,
    ensures
        chunk_len(b[d.pos]) == literal_bytes(p, with_alpha).len(),
        !(0xc0 <= b[d.pos] < 0xfe),
        chunk_pixel(b, d) == p,
{
    let l = literal_bytes(p, with_alpha);
    assert(b[d.pos] == l[0]);
    assert(b[d.pos + 1] == l[1]);
    assert(b[d.pos + 2] == l[2]);
    assert(b[d.pos + 3] == l[3]);
    if with_alpha {
        assert(b[d.pos + 4] == l[4]);
    }
}

/// The chunk written for a pixel that differs from the previous one decodes
/// to that pixel, from a decoder that agrees with the encoder.
proof fn lemma_body_decodes(b: Seq<u8>, d: DecoderModel, m: EncoderModel, p: Pixel, has_alpha: bool)
    requires
        d.prev == m.prev,
        d.cache == m.cache,
        d.run == 0,
        m.cache.len() == 64,
        0 <= d.pos,
        d.pos + body_bytes(m, p, has_alpha).len() <= b.len(),
        forall|k: int|
            0 <= k < body_bytes(m, p, has_alpha).len() ==> b[d.pos + k] == body_bytes(
                m,
                p,
                has_alpha,
            )[k],
        !has_alpha ==> p.a == 255 && m.prev.a == 255,
    ensures
        decode_step(b, d) == Some(
            DecoderModel {
                prev: p,
                cache: m.cache.update(hash_index(p), p),
                run: 0,
                pos: d.pos + body_bytes(m, p, has_alpha).len(),
            },
        ),
{
    let body = body_bytes(m, p, has_alpha);
    let q = m.prev;
    assert(b[d.pos] == body[0]);
    if m.cache[hash_index(p)] == p {
        lemma_hit_decodes(b, d, p);
    } else if small_delta_fits(q, p) {
        lemma_small_decodes(b, d, p);
    } else if luma_fits(q, p) {
        assert(b[d.pos + 1] == body[1]);
        lemma_luma_decodes(b, d, p);
    } else {
        lemma_literal_decodes(b, d, p, literal_has_alpha(p, has_alpha));
    }
}

/// The decoder state that matches the encoder after `i` pixels: a pending
/// run has already been read by the decoder, which then owes the repeats that
/// the run will still reach.
pub open spec fn decoder_at(px: Seq<Pixel>, has_alpha: bool, i: int) -> DecoderModel {
    let m = model_at(px, i);
    DecoderModel {
        prev: m.prev,
        cache: m.cache,
        run: if m.run > 0 {
            (run_reach(px, i, m.run) - m.run) as nat
        } else {
            0
        },
        pos: 14 + chunks_at(px, has_alpha, i).len() + if m.run > 0 {
            1int
        } else {
            0int
        },
    }
}

/// Every pixel is fully opaque.
pub open spec fn alpha_opaque(px: Seq<Pixel>) -> bool {
    forall|k: int| 0 <= k < px.len() ==> px[k].a == 255
}

proof fn lemma_alpha_prev(px: Seq<Pixel>, has_alpha: bool, j: int)
    requires
        0 <= j < px.len(),
        !has_alpha ==> alpha_opaque(px),
    ensures
        !has_alpha ==> model_at(px, j).prev.a == 255 && px[j].a == 255,
{
    lemma_step(px, has_alpha, j);
    if j > 0 && !has_alpha {
        assert(px[j - 1].a == 255);
    }
}

/// A repeat that the run chunk already read covers.
proof fn lemma_step_in_run(w: u32, h: u32, has_alpha: bool, cs: u8, px: Seq<Pixel>, j: int)
    requires
        0 <= j < px.len(),
        px[j] == model_at(px, j).prev,
        model_at(px, j).run > 0,
        run_reach(px, j, model_at(px, j).run) > model_at(px, j).run,
    ensures
        decode_step(encoding(w, h, has_alpha, cs, px), decoder_at(px, has_alpha, j)) == Some(
            decoder_at(px, has_alpha, j + 1),
        ),
{
    lemma_step(px, has_alpha, j);
    let r = model_at(px, j).run;
    assert(run_reach(px, j, r) == run_reach(px, j + 1, r + 1));
    assert(chunks_at(px, has_alpha, j + 1) =~= chunks_at(px, has_alpha, j));
}

/// A repeat that starts a new run: the decoder reads the run chunk that the
/// encoder writes when the run ends.
proof fn lemma_step_run_start(w: u32, h: u32, has_alpha: bool, cs: u8, px: Seq<Pixel>, j: int)
    requires
        0 <= j < px.len(),
        px[j] == model_at(px, j).prev,
        model_at(px, j).run == 0 || model_at(px, j).run == MAX_RUN,
        decoder_at(px, has_alpha, j).run == 0,
    ensures
        decode_step(encoding(w, h, has_alpha, cs, px), decoder_at(px, has_alpha, j)) == Some(
            decoder_at(px, has_alpha, j + 1),
        ),
{
    let e = encoding(w, h, has_alpha, cs, px);
    let d = decoder_at(px, has_alpha, j);
    lemma_step(px, has_alpha, j);
    lemma_run_ahead(w, h, has_alpha, cs, px, j + 1);
    let l = run_reach(px, j + 1, 1);
    let c = chunks_at(px, has_alpha, j + 1);
    assert(d.pos == 14 + c.len());
    let t = e[d.pos];
    assert(t == run_byte(l as int));
    assert(0xc0 <= t < 0xfe);
    assert(t % 64 == l - 1);
    assert(chunk_pixel(e, d) == px[j]);
}

/// A pixel that differs from the previous one: the pending run is written,
/// then the chunk of the pixel, which the decoder reads.
proof fn lemma_step_new_pixel(w: u32, h: u32, has_alpha: bool, cs: u8, px: Seq<Pixel>, j: int)
    requires
        0 <= j < px.len(),
        px[j] != model_at(px, j).prev,
        decoder_at(px, has_alpha, j).run == 0,
        !has_alpha ==> alpha_opaque(px),
    ensures
        decode_step(encoding(w, h, has_alpha, cs, px), decoder_at(px, has_alpha, j)) == Some(
            decoder_at(px, has_alpha, j + 1),
        ),
{
    let e = encoding(w, h, has_alpha, cs, px);
    let d = decoder_at(px, has_alpha, j);
    let m = model_at(px, j);
    let p = px[j];
    lemma_step(px, has_alpha, j);
    lemma_alpha_prev(px, has_alpha, j);
    let c = chunks_at(px, has_alpha, j + 1);
    let body = body_bytes(m, p, has_alpha);
    assert(c == chunks_at(px, has_alpha, j) + run_flush(m.run) + body);
    lemma_stream_bytes(w, h, has_alpha, cs, px, j + 1);
    assert(d.pos == 14 + chunks_at(px, has_alpha, j).len() + run_flush(m.run).len());
    assert forall|k: int| 0 <= k < body.len() implies e[d.pos + k] == body[k] by {
        assert(e[d.pos + k] == c[d.pos + k - 14]);
    }
    lemma_body_decodes(e, d, m, p, has_alpha);
}

proof fn lemma_decode_prefix(w: u32, h: u32, has_alpha: bool, cs: u8, px: Seq<Pixel>, i: int)
    requires
        0 <= i <= px.len(),
        !has_alpha ==> alpha_opaque(px),
    ensures
        decode_steps(encoding(w, h, has_alpha, cs, px), i as nat) == Some(
            (decoder_at(px, has_alpha, i), px.take(i)),
        ),
    decreases i,
{
    if i == 0 {
        lemma_model_facts(px.take(0));
        assert(px.take(0) =~= Seq::<Pixel>::empty());
        assert(decoder_at(px, has_alpha, 0) == initial_decoder());
    } else {
        let j = i - 1;
        lemma_decode_prefix(w, h, has_alpha, cs, px, j);
        lemma_step(px, has_alpha, j);
        let m = model_at(px, j);
        let p = px[j];
        let r = m.run;
        lemma_reach_at_least(px, j, r);
        if p == m.prev && r > 0 && run_reach(px, j, r) > r {
            lemma_step_in_run(w, h, has_alpha, cs, px, j);
        } else if p == m.prev {
            if r > 0 && r < MAX_RUN {
                assert(j > 0);
                lemma_reach_at_least(px, j + 1, r + 1);
                assert(run_reach(px, j, r) == run_reach(px, j + 1, r + 1));
            }
            lemma_step_run_start(w, h, has_alpha, cs, px, j);
        } else {
            lemma_step_new_pixel(w, h, has_alpha, cs, px, j);
        }
        assert(decoder_at(px, has_alpha, i).prev == p);
        assert(px.take(j).push(p) =~= px.take(i));
    }
}

/// Round trip: decoding the encoding of a `width` x `height` grid gives the
/// grid back, with a well-formed header announcing as many pixels. An image
/// without an alpha channel has every alpha at 255.
pub proof fn lemma_round_trip(
    width: u32,
    height: u32,
    has_alpha: bool,
    colorspace: u8,
    px: Seq<Pixel>,
)
    requires
        px.len() == width as int * height as int,
        colorspace <= 1,
        !has_alpha ==> alpha_opaque(px),
    ensures
        header_ok(encoding(width, height, has_alpha, colorspace, px)),
        pixel_count(encoding(width, height, has_alpha, colorspace, px)) == px.len(),
        decoded_pixels(encoding(width, height, has_alpha, colorspace, px)) == px,
{
    let e = encoding(width, height, has_alpha, colorspace, px);
    lemma_header_fidelity(width, height, has_alpha, colorspace, px);
    let hd = header_bytes(width, height, channel_count(has_alpha), colorspace);
    assert(e.subrange(0, 4) =~= magic()) by {
        assert(e[0] == hd[0] && e[1] == hd[1] && e[2] == hd[2] && e[3] == hd[3]);
    }
    lemma_decode_prefix(width, height, has_alpha, colorspace, px, px.len() as int);
    assert(px.take(px.len() as int) =~= px);
}

/// Two grids of the same size, alpha mode and colour space that differ in
/// their pixels give differing chunk streams after the shared header.
pub proof fn lemma_different_pixels_different_chunks(
    width: u32,
    height: u32,
    has_alpha: bool,
    colorspace: u8,
    px1: Seq<Pixel>,
    px2: Seq<Pixel>,
)
    requires
        px1.len() == width as int * height as int,
        px2.len() == width as int * height as int,
        colorspace <= 1,
        !has_alpha ==> alpha_opaque(px1) && alpha_opaque(px2),
        px1 != px2,
    ensures
        ({
            let e1 = encoding(width, height, has_alpha, colorspace, px1);
            let e2 = encoding(width, height, has_alpha, colorspace, px2);
            e1.subrange(14, e1.len() as int) != e2.subrange(14, e2.len() as int)
        }),
{
    let e1 = encoding(width, height, has_alpha, colorspace, px1);
    let e2 = encoding(width, height, has_alpha, colorspace, px2);
    lemma_round_trip(width, height, has_alpha, colorspace, px1);
    lemma_round_trip(width, height, has_alpha, colorspace, px2);
    lemma_header_fidelity(width, height, has_alpha, colorspace, px1);
    lemma_header_fidelity(width, height, has_alpha, colorspace, px2);
    if e1.subrange(14, e1.len() as int) == e2.subrange(14, e2.len() as int) {
        assert(e1 =~= e1.subrange(0, 14) + e1.subrange(14, e1.len() as int));
        assert(e2 =~= e2.subrange(0, 14) + e2.subrange(14, e2.len() as int));
        assert(e1 == e2);
    }
}

} // verus!
