use vstd::prelude::*;
use crate::buffer::ImageBuffer;
use crate::format::{MAX_RUN, run_byte, run_flush, start_pixel};
use crate::pixel::Pixel;

verus! {

/// The previous pixel and the length of the run not yet written.
pub struct QOIState {
    pub prev_pixel: Pixel,
    pub run_length: u8,
}

impl QOIState {
    /// The state before the first pixel: previous pixel opaque black, no run.
    pub fn new() -> (s: QOIState)
        ensures
            s.prev_pixel == start_pixel(),
            s.run_length == 0,
    {
        QOIState { prev_pixel: Pixel { r: 0, g: 0, b: 0, a: 255 }, run_length: 0 }
    }
}

/// Offers `pixel` to the run tracker. A repeat of the previous pixel extends
/// the run (writing out a full run of 62 first) and is handled; any other
/// pixel writes out the pending run and is left to the other chunk kinds.
pub fn handle(qoi_buffer: &mut ImageBuffer, state: &mut QOIState, pixel: &Pixel) -> (handled: bool)
    requires
        old(state).run_length <= MAX_RUN,
    ensures
        handled == (*pixel == old(state).prev_pixel),
        final(state).prev_pixel == old(state).prev_pixel,
        final(state).run_length <= MAX_RUN,
        handled && old(state).run_length == MAX_RUN ==> {
            &&& final(qoi_buffer)@ == old(qoi_buffer)@.push(run_byte(MAX_RUN as int))
            &&& final(state).run_length == 1
        },
        handled && old(state).run_length < MAX_RUN ==> {
            &&& final(qoi_buffer)@ == old(qoi_buffer)@
            &&& final(state).run_length == old(state).run_length + 1
        },
        !handled ==> {
            &&& final(qoi_buffer)@ == old(qoi_buffer)@ + run_flush(old(state).run_length as nat)
            &&& final(state).run_length == 0
        },
{
    if *pixel == state.prev_pixel {
        if state.run_length == MAX_RUN {
            qoi_buffer.add_run_pixels(state.run_length);
            state.run_length = 0;
        }
        state.run_length = state.run_length + 1;
        return true;
    }
    cleanup(qoi_buffer, state);
    false
}

/// Writes out the pending run, if any, and clears it.
pub fn cleanup(qoi_buffer: &mut ImageBuffer, state: &mut QOIState)
    requires
        old(state).run_length <= MAX_RUN,
    ensures
        final(qoi_buffer)@ == old(qoi_buffer)@ + run_flush(old(state).run_length as nat),
        final(state).run_length == 0,
        final(state).prev_pixel == old(state).prev_pixel,
{
    if state.run_length != 0 {
        qoi_buffer.add_run_pixels(state.run_length);
        state.run_length = 0;
        assert(final(qoi_buffer)@ =~= old(qoi_buffer)@ + run_flush(old(state).run_length as nat));
    } else {
        assert(old(qoi_buffer)@ + run_flush(0) =~= old(qoi_buffer)@);
    }
}

} // verus!
