use iris::capture::CaptureFrame;
use iris::device::PixelFormat;
use iris::mjpeg::DecoderOutput;
use iris::snapshot::{base64_encode, downscale_rgb24, snapshot_from_encoding, Snapshot, SnapshotError};
use zune_jpeg::zune_core::bytestream::ZCursor;
use zune_jpeg::zune_core::colorspace::ColorSpace;
use zune_jpeg::zune_core::options::DecoderOptions;
use zune_jpeg::JpegDecoder;

/// The JPEG decoder's output for `data`, as the runtime hands it over.
fn zune(data: &[u8]) -> DecoderOutput {
    let options = DecoderOptions::default().jpeg_set_out_colorspace(ColorSpace::RGB);
    let mut decoder = JpegDecoder::new_with_options(ZCursor::new(data), options);
    match decoder.decode() {
        Ok(pixels) => Ok((pixels, decoder.info().map(|i| (i.width, i.height)))),
        Err(e) => Err(e.to_string()),
    }
}

/// Snapshot a frame with the decoder's output for its bytes.
fn snapshot(frame: &CaptureFrame, max_width: u32, quality: u8) -> Result<Snapshot, SnapshotError> {
    iris::snapshot::snapshot(frame, max_width, quality, zune(&frame.data))
}

fn frame(w: u32, h: u32, format: PixelFormat, data: Vec<u8>) -> CaptureFrame {
    CaptureFrame {
        sequence: 1,
        width: w,
        height: h,
        format,
        data,
        timestamp_us: 0,
        is_cropped: false,
    }
}

/// A 16x16 baseline JPEG with a colour gradient.
fn tiny_jpeg() -> Vec<u8> {
    let mut rgb = Vec::new();
    for y in 0..16u32 {
        for x in 0..16u32 {
            rgb.extend_from_slice(&[(x * 16) as u8, (y * 16) as u8, 128]);
        }
    }
    let mut out = Vec::new();
    jpeg_encoder::Encoder::new(&mut out, 90)
        .encode(&rgb, 16, 16, jpeg_encoder::ColorType::Rgb)
        .expect("encode fixture");
    out
}

fn base64_decode(s: &str) -> Vec<u8> {
    const A: &[u8; 64] = b"ABCDEFGHIJKLMNOPQRSTUVWXYZabcdefghijklmnopqrstuvwxyz0123456789+/";
    let mut out = Vec::new();
    let mut acc = 0u32;
    let mut bits = 0;
    for c in s.bytes().filter(|c| *c != b'=') {
        let v = A.iter().position(|a| *a == c).expect("valid alphabet") as u32;
        acc = (acc << 6) | v;
        bits += 6;
        if bits >= 8 {
            bits -= 8;
            out.push((acc >> bits) as u8);
        }
    }
    out
}

#[test]
fn base64_matches_the_rfc_4648_vectors() {
    for (in_, want) in [
        ("", ""),
        ("f", "Zg=="),
        ("fo", "Zm8="),
        ("foo", "Zm9v"),
        ("foob", "Zm9vYg=="),
        ("fooba", "Zm9vYmE="),
        ("foobar", "Zm9vYmFy"),
    ] {
        assert_eq!(base64_encode(in_.as_bytes()), want, "input {in_:?}");
    }
}

#[test]
fn base64_handles_every_byte_value() {
    let all: Vec<u8> = (0..=255u8).collect();
    let out = base64_encode(&all);
    assert_eq!(out.len(), 344, "256 bytes -> ceil(256/3)*4");
    assert!(out.ends_with('='), "256 is not a multiple of 3, so it pads");
    assert!(
        out.chars().all(|c| c.is_ascii_alphanumeric() || "+/=".contains(c)),
        "only the standard alphabet may appear"
    );
}

#[test]
fn base64_round_trips_through_a_decoder() {
    let data: Vec<u8> = (0..1000u32).map(|i| (i * 7 % 251) as u8).collect();
    assert_eq!(base64_decode(&base64_encode(&data)), data);
}

#[test]
fn a_frame_smaller_than_the_limit_is_untouched() {
    let src = vec![7u8; 4 * 2 * 3];
    let (w, h, out) = downscale_rgb24(&src, 4, 2, 100);
    assert_eq!((w, h), (4, 2));
    assert_eq!(out, src);
}

#[test]
fn a_zero_limit_means_no_downscaling() {
    let src = vec![1u8, 2, 3, 4, 5, 6];
    let (w, h, out) = downscale_rgb24(&src, 2, 1, 0);
    assert_eq!((w, h), (2, 1));
    assert_eq!(out, src);
}

#[test]
fn aspect_ratio_is_preserved() {
    let src = vec![0u8; 1920 * 1080 * 3];
    let (w, h, _) = downscale_rgb24(&src, 1920, 1080, 512);
    assert_eq!(w, 512);
    assert_eq!(h, 288, "1920x1080 to 512 wide is 288 tall");
}

#[test]
fn an_extreme_aspect_ratio_keeps_at_least_one_row() {
    let src = vec![0u8; 4000 * 2 * 3];
    let (w, h, out) = downscale_rgb24(&src, 4000, 2, 8);
    assert_eq!(w, 8);
    assert!(h >= 1, "height must never round to zero");
    assert_eq!(out.len(), (w * h * 3) as usize);
}

#[test]
fn downscaling_averages_rather_than_point_sampling() {
    let src = vec![0, 0, 0, 255, 255, 255];
    let (w, h, out) = downscale_rgb24(&src, 2, 1, 1);
    assert_eq!((w, h), (1, 1));
    assert_eq!(
        out,
        vec![127, 127, 127],
        "the single output pixel must be the average of both inputs"
    );
}

#[test]
fn output_length_always_matches_the_reported_geometry() {
    let src = vec![9u8; 640 * 480 * 3];
    for max in [1, 7, 64, 320, 639] {
        let (w, h, out) = downscale_rgb24(&src, 640, 480, max);
        assert_eq!(out.len(), (w * h * 3) as usize, "at max_width {max}");
    }
}

#[test]
fn a_short_source_averages_only_the_pixels_present() {
    // 4x2 claimed, but only the first row (4 pixels) is present.
    let src = vec![10, 20, 30, 10, 20, 30, 50, 60, 70, 50, 60, 70];
    let (w, h, out) = downscale_rgb24(&src, 4, 2, 2);
    assert_eq!((w, h), (2, 1));
    assert_eq!(out, vec![10, 20, 30, 50, 60, 70]);
}

#[test]
fn an_rgb_frame_becomes_a_usable_data_url() {
    let (w, h) = (64u32, 32u32);
    let mut data = Vec::with_capacity((w * h * 3) as usize);
    for y in 0..h {
        for x in 0..w {
            data.extend_from_slice(&[(x * 4) as u8, (y * 8) as u8, 128]);
        }
    }
    let snap = snapshot(&frame(w, h, PixelFormat::Rgb24, data), 32, 80).expect("snapshot");
    assert_eq!(snap.width, 32);
    assert_eq!(snap.height, 16);
    assert_eq!(snap.mime, "image/jpeg");

    let url = snap.data_url();
    assert!(
        url.starts_with("data:image/jpeg;base64,"),
        "must drop straight into OpenAI image_url.url: {}",
        &url[..40.min(url.len())]
    );
    assert!(snap.base64.len() > 100, "a real JPEG is not a few bytes");
}

#[test]
fn the_encoded_bytes_are_a_real_jpeg() {
    let data = vec![200u8; 16 * 16 * 3];
    let snap = snapshot(&frame(16, 16, PixelFormat::Rgb24, data), 0, 90).expect("snapshot");
    let bytes = base64_decode(&snap.base64);
    assert_eq!(&bytes[..2], &[0xFF, 0xD8], "JPEG must start with SOI");
    assert_eq!(&bytes[bytes.len() - 2..], &[0xFF, 0xD9], "and end with EOI");
}

#[test]
fn bgr_frames_have_their_channels_swapped() {
    let snap = snapshot(&frame(1, 1, PixelFormat::Bgr24, vec![0, 0, 255]), 0, 95)
        .expect("snapshot");
    assert_eq!((snap.width, snap.height), (1, 1));
}

#[test]
fn a_bgr_pixel_decodes_back_to_red() {
    let snap = snapshot(&frame(8, 8, PixelFormat::Bgr24, [0u8, 0, 255].repeat(64)), 0, 100)
        .expect("snapshot");
    let jpeg = base64_decode(&snap.base64);
    let rgb = iris::mjpeg::decode_to_rgb24(&jpeg, zune(&jpeg)).expect("decodes");
    assert!(rgb.rgb24[0] > 200 && rgb.rgb24[1] < 60 && rgb.rgb24[2] < 60, "{:?}", &rgb.rgb24[..3]);
}

#[test]
fn a_truncated_frame_is_reported_not_guessed() {
    let err = snapshot(&frame(64, 64, PixelFormat::Rgb24, vec![1, 2, 3]), 0, 80).unwrap_err();
    assert!(matches!(err, SnapshotError::Truncated { .. }), "{}", err.message());
    assert_eq!(err.message(), "frame buffer is 3 bytes, expected at least 12288");
}

#[test]
fn empty_and_zero_sized_frames_are_refused() {
    assert!(matches!(
        snapshot(&frame(4, 4, PixelFormat::Rgb24, vec![]), 0, 80).unwrap_err(),
        SnapshotError::Empty
    ));
    assert!(matches!(
        snapshot(&frame(0, 4, PixelFormat::Rgb24, vec![1]), 0, 80).unwrap_err(),
        SnapshotError::ZeroSized(0, 4)
    ));
}

#[test]
fn raw_yuv_frames_are_not_decoded() {
    let err = snapshot(&frame(2, 2, PixelFormat::Nv12, vec![0; 6]), 0, 80).unwrap_err();
    assert!(matches!(err, SnapshotError::UnsupportedFormat(PixelFormat::Nv12)));
    assert_eq!(err.message(), "cannot decode Nv12 frames to pixels");
}

#[test]
fn an_mjpeg_frame_decodes_and_re_encodes() {
    let snap = snapshot(&frame(999, 999, PixelFormat::Mjpeg, tiny_jpeg()), 0, 85)
        .expect("snapshot");
    assert_eq!(
        (snap.width, snap.height),
        (16, 16),
        "the decoder's geometry must win over the frame header"
    );
}

#[test]
fn an_encoder_error_becomes_an_encode_error() {
    let r = snapshot_from_encoding(4, 4, Err("ZeroImageDimensions { width: 0, height: 4 }".to_string()));
    match r {
        Err(SnapshotError::Encode(m)) => assert_eq!(m, "ZeroImageDimensions { width: 0, height: 4 }"),
        other => panic!("expected an encode error, got {other:?}"),
    }
    let ok = snapshot_from_encoding(2, 3, Ok(b"foo".to_vec())).expect("ok");
    assert_eq!(
        ok,
        Snapshot { width: 2, height: 3, mime: "image/jpeg", base64: "Zm9v".to_string() }
    );
    assert_eq!(ok.data_url(), "data:image/jpeg;base64,Zm9v");
}
