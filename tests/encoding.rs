use qoi_rs::buffer::ImageBuffer;
use qoi_rs::decoder::{chunk, decode};
use qoi_rs::diff_handler::wrapped_delta;
use qoi_rs::encoder::encode;
use qoi_rs::errors::QOIError;
use qoi_rs::pixel::Pixel;
use qoi_rs::run_handler::{cleanup, handle, QOIState};
use qoi_rs::seen_handler::SeenHandler;

const END: [u8; 8] = [0, 0, 0, 0, 0, 0, 0, 1];

fn px(r: u8, g: u8, b: u8, a: u8) -> Pixel {
    Pixel::new(r, g, b, a)
}

fn body(bytes: &[u8]) -> Vec<u8> {
    bytes[14..bytes.len() - 8].to_vec()
}

#[test]
fn header_fields_are_exact() {
    let pixels = vec![px(1, 2, 3, 255); 6];
    let out = encode(3, 2, false, 0, &pixels);
    assert_eq!(&out[0..14], &[b'q', b'o', b'i', b'f', 0, 0, 0, 3, 0, 0, 0, 2, 3, 0]);
    let out = encode(0x01020304, 0, true, 1, &vec![]);
    assert_eq!(&out[0..14], &[b'q', b'o', b'i', b'f', 1, 2, 3, 4, 0, 0, 0, 0, 4, 1]);
    assert_eq!(&out[14..], &END);
}

#[test]
fn run_of_130_repeats_splits_as_62_62_6() {
    // One pixel that differs from the start pixel, then 130 repeats of it.
    let pixels = vec![px(10, 20, 30, 255); 131];
    let out = encode(131, 1, false, 0, &pixels);
    assert_eq!(body(&out), vec![0xfe, 10, 20, 30, 0xc0 | 61, 0xc0 | 61, 0xc0 | 5]);
}

#[test]
fn run_of_start_pixel_needs_no_leading_chunk() {
    let pixels = vec![px(0, 0, 0, 255); 130];
    let out = encode(130, 1, false, 0, &pixels);
    assert_eq!(body(&out), vec![0xfd, 0xfd, 0xc5]);
}

#[test]
fn repeated_pixel_hits_cache() {
    let a = px(10, 20, 30, 255);
    let b = px(200, 100, 50, 255);
    assert_ne!(SeenHandler::hash(&a), SeenHandler::hash(&b));
    let out = encode(3, 1, false, 0, &vec![a, b, a]);
    assert_eq!(body(&out), vec![0xfe, 10, 20, 30, 0xfe, 200, 100, 50, 9]);
}

#[test]
fn small_delta_at_upper_bound() {
    let out = encode(1, 1, false, 0, &vec![px(1, 1, 1, 255)]);
    assert_eq!(body(&out), vec![0x7f]);
}

#[test]
fn delta_past_small_range_goes_to_luma() {
    let out = encode(1, 1, false, 0, &vec![px(2, 1, 1, 255)]);
    assert_eq!(body(&out), vec![0xa1, 0x98]);
}

#[test]
fn small_delta_wraps_around() {
    // 255 -> 0 is a delta of +1 and 0 -> 254 one of -2.
    let out = encode(2, 1, false, 0, &vec![px(255, 0, 0, 255), px(0, 254, 0, 255)]);
    assert_eq!(body(&out), vec![0x40 | (1 << 4) | (2 << 2) | 2, 0x40 | (3 << 4) | (0 << 2) | 2]);
}

#[test]
fn alpha_change_needs_rgba_literal() {
    let out = encode(2, 1, true, 0, &vec![px(0, 0, 0, 128), px(1, 1, 1, 128)]);
    assert_eq!(body(&out), vec![0xff, 0, 0, 0, 128, 0x7f]);
}

#[test]
fn zero_pixel_first_is_a_cache_hit() {
    let out = encode(1, 1, true, 0, &vec![px(0, 0, 0, 0)]);
    assert_eq!(body(&out), vec![0x00]);
}

#[test]
fn output_ends_with_marker() {
    let pixels: Vec<Pixel> = (0..16u32).map(|i| px(i as u8 * 17, 0, 1, 255)).collect();
    let out = encode(4, 4, false, 0, &pixels);
    assert_eq!(&out[out.len() - 8..], &END);
    let out = encode(1, 1, false, 0, &vec![px(0, 0, 0, 255)]);
    assert_eq!(body(&out), vec![0xc0]);
    assert_eq!(&out[out.len() - 8..], &END);
}

#[test]
fn marker_like_chunks_do_not_end_the_stream() {
    // Cache hits on slot 0 write 0x00 bytes; the decoder stops by pixel count.
    let z = px(0, 0, 0, 0);
    let c = px(0, 0, 0, 1);
    let pixels = vec![z, c, z, c, z, c, z];
    let out = encode(7, 1, true, 0, &pixels);
    assert_eq!(&out[out.len() - 8..], &END);
    let img = decode(&out).unwrap();
    assert_eq!(img.pixels, pixels);
}

#[test]
fn same_size_images_share_header() {
    let a = encode(2, 2, true, 0, &vec![px(1, 2, 3, 4); 4]);
    let b = encode(2, 2, true, 0, &vec![px(90, 80, 70, 60), px(0, 0, 0, 0), px(5, 5, 5, 5), px(9, 9, 9, 9)]);
    assert_eq!(&a[0..14], &b[0..14]);
    assert_ne!(body(&a), body(&b));
}

#[test]
fn round_trip_mixed_image() {
    let mut pixels = Vec::new();
    for i in 0..300u32 {
        let v = (i * 7 % 251) as u8;
        let p = match i % 5 {
            0 => px(v, v, v, 255),
            1 => px(v, v.wrapping_add(1), v, 255),
            2 => px(10, 20, 30, 255),
            3 => px(v.wrapping_mul(3), 200, v, 255),
            _ => px(v, 20, 30, 255),
        };
        pixels.push(p);
        if i % 40 == 0 {
            for _ in 0..70 {
                pixels.push(p);
            }
        }
    }
    let n = pixels.len() as u32;
    let out = encode(n, 1, false, 0, &pixels);
    let img = decode(&out).unwrap();
    assert_eq!((img.width, img.height, img.channels, img.colorspace), (n, 1, 3, 0));
    assert_eq!(img.pixels, pixels);
}

#[test]
fn round_trip_with_alpha() {
    let pixels: Vec<Pixel> = (0..64u32)
        .map(|i| px((i * 13) as u8, (i * 29) as u8, 7, (i % 3 * 100) as u8))
        .collect();
    let out = encode(8, 8, true, 1, &pixels);
    let img = decode(&out).unwrap();
    assert_eq!((img.width, img.height, img.channels, img.colorspace), (8, 8, 4, 1));
    assert_eq!(img.pixels, pixels);
}

#[test]
fn decode_rejects_bad_input() {
    assert!(matches!(decode(&vec![b'q', b'o', b'i']), Err(QOIError::ImageDecodeError(_))));
    let mut bad = encode(1, 1, false, 0, &vec![px(1, 1, 1, 255)]);
    bad[0] = b'x';
    assert!(matches!(decode(&bad), Err(QOIError::ImageDecodeError(_))));
    let mut bad = encode(1, 1, false, 0, &vec![px(1, 1, 1, 255)]);
    bad[12] = 5;
    assert!(matches!(decode(&bad), Err(QOIError::ImageDecodeError(_))));
    let good = encode(1, 1, false, 0, &vec![px(100, 1, 1, 255)]);
    let truncated = good[0..16].to_vec();
    assert!(matches!(decode(&truncated), Err(QOIError::ImageDecodeError(_))));
}

#[test]
fn hash_formula() {
    assert_eq!(SeenHandler::hash(&px(1, 2, 3, 4)), 14);
    assert_eq!(SeenHandler::hash(&px(255, 255, 255, 255)), ((255u32 * 26) % 64) as u8);
}

#[test]
fn wrapped_delta_is_signed_byte() {
    assert_eq!(wrapped_delta(0, 255), 1);
    assert_eq!(wrapped_delta(255, 0), -1);
    assert_eq!(wrapped_delta(10, 20), -10);
    assert_eq!(wrapped_delta(0, 128), -128);
}

#[test]
fn chunk_takes_at_most_n() {
    let v = vec![1u8, 2, 3, 4, 5];
    assert_eq!(chunk(&v, 1, 2), vec![2, 3]);
    assert_eq!(chunk(&v, 3, 10), vec![4, 5]);
    assert_eq!(chunk(&v, 7, 2), Vec::<u8>::new());
}

#[test]
fn run_tracker_flushes() {
    let mut buf = ImageBuffer::new(1, 1, 3, 0);
    let mut state = QOIState::new();
    let p = px(0, 0, 0, 255);
    for _ in 0..5 {
        assert!(handle(&mut buf, &mut state, &p));
    }
    assert_eq!(state.run_length, 5);
    assert!(!handle(&mut buf, &mut state, &px(1, 0, 0, 255)));
    assert_eq!(state.run_length, 0);
    state.run_length = 3;
    cleanup(&mut buf, &mut state);
    assert_eq!(state.run_length, 0);
    cleanup(&mut buf, &mut state);
    let out = buf.finish();
    assert_eq!(&out[14..out.len() - 8], &[0xc4, 0xc2]);
}

#[test]
fn buffer_packs_chunks() {
    let mut buf = ImageBuffer::new(0, 0, 4, 0);
    buf.add_run_pixels(62);
    buf.add_seen_pixel(63);
    buf.add_small_diff(-2, 0, 1);
    buf.add_luma_diff(-32, 7, -8);
    buf.add_literal(&px(1, 2, 3, 4), true);
    buf.add_literal(&px(1, 2, 3, 4), false);
    let out = buf.finish();
    assert_eq!(
        &out[14..out.len() - 8],
        &[0xfd, 0x3f, 0x40 | (0 << 4) | (2 << 2) | 3, 0x80, 0xf0, 0xff, 1, 2, 3, 4, 0xfe, 1, 2, 3]
    );
}

#[test]
fn cache_handler_marks_hits() {
    let mut seen = SeenHandler::new();
    let mut buf = ImageBuffer::new(0, 0, 4, 0);
    let p = px(10, 20, 30, 255);
    let mut handled = false;
    seen.handle(&mut buf, &p, &mut handled);
    assert!(!handled);
    seen.handle(&mut buf, &p, &mut handled);
    assert!(handled);
    assert_eq!(seen.get(9), p);
    let out = buf.finish();
    assert_eq!(&out[14..out.len() - 8], &[9]);
}
