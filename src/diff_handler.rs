use vstd::prelude::*;
use crate::buffer::ImageBuffer;
use crate::format::{delta_bytes, luma_fits, small_delta_fits, wrap_delta};
use crate::pixel::Pixel;

verus! {

/// `cur - prev` wrapped to a signed eight-bit value.
pub fn wrapped_delta(cur: u8, prev: u8) -> (d: i32)
    ensures
        d == wrap_delta(cur, prev),
        -128 <= d <= 127,
{
    let d: i32 = cur as i32 - prev as i32;
    if d > 127 {
        d - 256
    } else if d < -128 {
        d + 256
    } else {
        d
    }
}

/// Offers `pixel` to the delta encoders, small delta first, then luma. Writes
/// the chunk and reports true when one fits; writes nothing otherwise.
pub fn handle(qoi_buffer: &mut ImageBuffer, prev: &Pixel, pixel: &Pixel) -> (handled: bool)
    ensures
        handled == (small_delta_fits(*prev, *pixel) || luma_fits(*prev, *pixel)),
        final(qoi_buffer)@ == old(qoi_buffer)@ + delta_bytes(*prev, *pixel),
{
    if pixel.a != prev.a {
        assert(old(qoi_buffer)@ + delta_bytes(*prev, *pixel) =~= old(qoi_buffer)@);
        return false;
    }
    let dr = wrapped_delta(pixel.r, prev.r);
    let dg = wrapped_delta(pixel.g, prev.g);
    let db = wrapped_delta(pixel.b, prev.b);
    if -2 <= dr && dr <= 1 && -2 <= dg && dg <= 1 && -2 <= db && db <= 1 {
        qoi_buffer.add_small_diff(dr, dg, db);
        return true;
    }
    let dr_dg = dr - dg;
    let db_dg = db - dg;
    if -32 <= dg && dg <= 31 && -8 <= dr_dg && dr_dg <= 7 && -8 <= db_dg && db_dg <= 7 {
        qoi_buffer.add_luma_diff(dg, dr_dg, db_dg);
        return true;
    }
    assert(old(qoi_buffer)@ + delta_bytes(*prev, *pixel) =~= old(qoi_buffer)@);
    false
}

} // verus!
