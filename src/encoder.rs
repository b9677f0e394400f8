use vstd::prelude::*;
use crate::buffer::ImageBuffer;
use crate::diff_handler;
use crate::format::{
    EncoderModel, MAX_RUN, channel_count, chunk_bytes, encoding, header_bytes, model_after, pixel_bytes,
};
use crate::pixel::Pixel;
use crate::run_handler::{self, QOIState};
use crate::seen_handler::SeenHandler;

verus! {

/// The encoder state held by `state` and `seen`.
pub open spec fn model_of(state: QOIState, cache: Seq<Pixel>) -> EncoderModel {
    EncoderModel { prev: state.prev_pixel, run: state.run_length as nat, cache }
}

proof fn lemma_take_step(px: Seq<Pixel>, i: int)
    requires
        0 <= i < px.len(),
    ensures
        px.take(i + 1).drop_last() == px.take(i),
        px.take(i + 1).last() == px[i],
{
    assert(px.take(i + 1).drop_last() =~= px.take(i));
}

/// Encodes a `width` x `height` grid of pixels, given in row-major order, as
/// a QOI stream: header, one chunk decision per pixel, the pending run, and
/// the end marker.
pub fn encode(width: u32, height: u32, has_alpha: bool, colorspace: u8, pixels: &Vec<Pixel>) -> (r:
    Vec<u8>)
    requires
        pixels@.len() == width as int * height as int,
        colorspace <= 1,
    ensures
        r@ == encoding(width, height, has_alpha, colorspace, pixels@),
{
    let channels: u8 = if has_alpha {
        4
    } else {
        3
    };
    let mut qoi_buffer = ImageBuffer::new(width, height, channels, colorspace);
    let mut state = QOIState::new();
    let mut seen = SeenHandler::new();
    let ghost header = header_bytes(width, height, channel_count(has_alpha), colorspace);
    let mut i: usize = 0;
    assert(pixels@.take(0) =~= Seq::<Pixel>::empty());
    assert(header + chunk_bytes(pixels@.take(0), has_alpha) =~= header);
    while i < pixels.len()
        invariant
            i <= pixels@.len(),
            state.run_length <= MAX_RUN,
            seen@.len() == 64,
            model_of(state, seen@) == model_after(pixels@.take(i as int)),
            qoi_buffer@ == header + chunk_bytes(pixels@.take(i as int), has_alpha),
        decreases pixels@.len() - i,
    {
        let pixel = &pixels[i];
        let ghost m = model_of(state, seen@);
        let ghost before = qoi_buffer@;
        let mut handled = run_handler::handle(&mut qoi_buffer, &mut state, pixel);
        seen.handle(&mut qoi_buffer, pixel, &mut handled);
        if !handled {
            handled = diff_handler::handle(&mut qoi_buffer, &state.prev_pixel, pixel);
        }
        if !handled {
            qoi_buffer.add_literal(pixel, has_alpha || pixel.a != 255);
        }
        state.prev_pixel = *pixel;
        proof {
            lemma_take_step(pixels@, i as int);
            assert(qoi_buffer@ =~= before + pixel_bytes(m, *pixel, has_alpha));
        }
        i = i + 1;
    }
    assert(pixels@.take(i as int) =~= pixels@);
    run_handler::cleanup(&mut qoi_buffer, &mut state);
    qoi_buffer.finish()
}

} // verus!
