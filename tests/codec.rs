use shar::backend::{aspect_ratio, pick_codec, Error, ErrorKind, PtsClock, EAGAIN};
use shar::codec::{decode, encode, CodecError, Decoder, Encoder, Frame, Unit as _};
use shar::color::{luma, to_bgra, to_yuv420, yuv_to_bgra, as_byte};
use shar::null::{Null, Unit};
use shar::tcp::{frame, Receiver};

fn solid(width: u32, height: u32, r: u8, g: u8, b: u8, index: u8) -> Frame {
    let mut pixels = Vec::new();
    for _ in 0..width * height {
        pixels.extend_from_slice(&[b, g, r, index]);
    }
    Frame { width, height, pixels }
}

#[test]
fn solid_colour_survives_conversion() {
    let (w, h) = (64usize, 64usize);
    let frame = solid(64, 64, 200, 100, 50, 255);
    let yuv = to_yuv420(&frame.pixels, w, h);
    assert_eq!(yuv.y.len(), w * h);
    assert_eq!(yuv.u.len(), w * h / 4);
    assert_eq!(yuv.v.len(), w * h / 4);
    let back = to_bgra(&yuv.y, w, &yuv.u, w / 2, &yuv.v, w / 2, w, h);
    assert_eq!(back.len(), 4 * w * h);
    for px in back.chunks(4) {
        assert!((px[0] as i32 - 50).abs() <= 2, "blue {}", px[0]);
        assert!((px[1] as i32 - 100).abs() <= 2, "green {}", px[1]);
        assert!((px[2] as i32 - 200).abs() <= 2, "red {}", px[2]);
        assert_eq!(px[3], 255);
    }
}

#[test]
fn conversion_formulas() {
    assert_eq!(luma(0, 0, 0), 16);
    assert_eq!(luma(255, 255, 255), 235);
    assert_eq!(luma(200, 100, 50), (((66i32 * 200 + 129 * 100 + 25 * 50) >> 8) + 16) as u8);
    assert_eq!(luma(200, 100, 50), 122);
    assert_eq!(yuv_to_bgra(16, 128, 128), [0, 0, 0, 255]);
    assert_eq!(yuv_to_bgra(235, 128, 128), [255, 255, 255, 255]);
    assert_eq!(as_byte(-5), 0);
    assert_eq!(as_byte(300), 255);
    assert_eq!(as_byte(77), 77);
}

#[test]
fn chroma_is_taken_from_even_rows_and_columns() {
    // 2x2 image: only the top-left pixel carries chroma
    let pixels = vec![255, 0, 0, 0, 0, 0, 255, 0, 0, 255, 0, 0, 0, 0, 0, 0];
    let yuv = to_yuv420(&pixels, 2, 2);
    assert_eq!(yuv.u, vec![(((112i32 * 255) >> 8) + 128) as u8]);
    assert_eq!(yuv.v, vec![(((-18i32 * 255) >> 8) + 128) as u8]);
    assert_eq!(yuv.v, vec![110]);
}

#[test]
fn null_codec_round_trip() {
    let mut codec = Null;
    let mut units = Vec::new();
    codec.encode(solid(2, 1, 1, 2, 3, 4), &mut units).unwrap();
    assert_eq!(units.len(), 1);
    assert_eq!(units[0].data(), &[2, 0, 0, 0, 1, 0, 0, 0, 3, 2, 1, 4, 3, 2, 1, 4][..]);
    assert!(units[0].is_idr());
    let mut frames = Vec::new();
    codec.decode(units.pop().unwrap(), &mut frames).unwrap();
    assert_eq!(frames.len(), 1);
    assert_eq!((frames[0].width, frames[0].height), (2, 1));
    assert_eq!(frames[0].pixels, vec![3, 2, 1, 4, 3, 2, 1, 4]);
    assert_eq!(codec.decode(Unit::from_packet(&[1, 2, 3]), &mut frames), Err(CodecError::TruncatedUnit));
    assert_eq!(frames.len(), 1);
}

#[test]
fn frame_bytes_round_trip() {
    let frame = solid(3, 2, 9, 8, 7, 6);
    let bytes = encode(&frame);
    assert_eq!(&bytes[..8], &[3, 0, 0, 0, 2, 0, 0, 0]);
    let back = decode(&bytes);
    assert_eq!((back.width, back.height), (3, 2));
    assert_eq!(back.pixels, frame.pixels);
}

#[test]
fn ten_frames_through_framing_and_null_codec() {
    let mut encoder = Null;
    let mut decoder = Null;
    let mut stream = Vec::new();
    for index in 0..10u8 {
        let mut units = Vec::new();
        encoder.encode(solid(4, 4, index, 0, 0, 255), &mut units).unwrap();
        for unit in &units {
            assert!(unit.is_idr());
            stream.extend_from_slice(&frame(unit.data()));
        }
    }
    let mut receiver = Receiver::new();
    receiver.feed(&stream);
    let mut frames = Vec::new();
    while let Ok(Some(bytes)) = receiver.next_frame() {
        let unit = Unit::from_packet(&bytes);
        assert!(unit.is_idr());
        decoder.decode(unit, &mut frames).unwrap();
    }
    assert_eq!(frames.len(), 10);
    for (index, frame) in frames.iter().enumerate() {
        assert_eq!(frame.pixels[2], index as u8);
    }
}

#[test]
fn backend_error_codes() {
    assert_eq!(Error::from_code(0).kind(), ErrorKind::Success);
    assert_eq!(Error::from_code(-EAGAIN).kind(), ErrorKind::WouldBlock);
    assert_eq!(Error::from_code(-EAGAIN).code(), EAGAIN);
    assert_eq!(Error::from_code(-22).kind(), ErrorKind::Other);
    assert_eq!(Error::from_code(-22).code(), 22);
}

#[test]
fn pts_advance_per_frame() {
    let mut clock = PtsClock::new(60);
    assert_eq!(clock.next_pts(), Some(0));
    assert_eq!(clock.next_pts(), Some(1500));
    assert_eq!(clock.next_pts(), Some(3000));
    let mut thirty = PtsClock::new(30);
    thirty.next_pts();
    assert_eq!(thirty.next_pts(), Some(3000));
}

#[test]
fn codec_choice_prefers_the_list() {
    assert_eq!(pick_codec(vec![None, Some("nvenc"), Some("qsv")], Some("x264")), Ok("nvenc"));
    assert_eq!(pick_codec(vec![None], Some("x264")), Ok("x264"));
    assert_eq!(pick_codec::<&str>(vec![], None), Err(CodecError::NoCodecAvailable));
}

#[test]
fn aspect_ratio_reduces_by_gcd() {
    assert_eq!(aspect_ratio(1920, 1080), (16, 9));
    assert_eq!(aspect_ratio(64, 64), (1, 1));
    assert_eq!(aspect_ratio(7, 0), (1, 0));
}
