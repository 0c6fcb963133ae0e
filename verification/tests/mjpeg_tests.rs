use iris::mjpeg::{decode_to_rgb24, rgb24_to_rgba8, DecodedFrame, DecoderOutput, MjpegError};
use zune_jpeg::zune_core::bytestream::ZCursor;
use zune_jpeg::zune_core::colorspace::ColorSpace;
use zune_jpeg::zune_core::options::DecoderOptions;
use zune_jpeg::JpegDecoder;

/// The JPEG decoder's output for `data`, as the runtime hands it over.
fn zune(data: &[u8]) -> DecoderOutput {
    let options = DecoderOptions::default().jpeg_set_out_colorspace(ColorSpace::RGB);
    let mut decoder = JpegDecoder::new_with_options(ZCursor::new(data), options);
    match decoder.decode() {
        Ok(pixels) => Ok((pixels, decoder.info().map(|i| (i.width, i.height)))),
        Err(e) => Err(e.to_string()),
    }
}

fn decode(data: &[u8]) -> Result<DecodedFrame, MjpegError> {
    decode_to_rgb24(data, zune(data))
}

fn tiny_jpeg() -> Vec<u8> {
    let mut rgb = Vec::new();
    for y in 0..16u32 {
        for x in 0..16u32 {
            rgb.extend_from_slice(&[(x * 16) as u8, (y * 16) as u8, ((x + y) * 8) as u8]);
        }
    }
    let mut out = Vec::new();
    jpeg_encoder::Encoder::new(&mut out, 90)
        .encode(&rgb, 16, 16, jpeg_encoder::ColorType::Rgb)
        .expect("encode fixture");
    out
}

#[test]
fn decodes_a_real_jpeg_to_the_right_geometry() {
    let f = decode(&tiny_jpeg()).expect("fixture must decode");
    assert_eq!((f.width, f.height), (16, 16));
    assert_eq!(f.rgb24.len(), 16 * 16 * 3);
}

#[test]
fn decoded_pixels_are_not_uniform() {
    let f = decode(&tiny_jpeg()).expect("fixture must decode");
    let first = f.rgb24[0];
    assert!(
        f.rgb24.iter().any(|&b| b != first),
        "every byte identical — decoder returned a blank buffer"
    );
}

#[test]
fn garbage_is_rejected_not_silently_accepted() {
    assert!(decode(&[0xFF, 0xD8, 0x00, 0x01, 0x02]).is_err());
    assert!(decode(&[]).is_err());
    assert!(decode(&[0xFF, 0xD8, 0xFF, 0xD9]).is_err());
}

#[test]
fn a_stream_without_an_end_marker_is_called_truncated() {
    match decode(&[0xFF, 0xD8, 0x11]) {
        Err(e @ MjpegError::Decode(_)) => assert_eq!(
            e.message(),
            "MJPEG decode failed: no EOI marker: frame is truncated or not a JPEG"
        ),
        other => panic!("expected a decode error, got {other:?}"),
    }
}

#[test]
fn truncating_a_valid_jpeg_is_an_error() {
    let jpeg = tiny_jpeg();
    let half = &jpeg[..jpeg.len() / 2];
    assert!(
        decode(half).is_err(),
        "a truncated JPEG must not decode to a partial frame"
    );
}

#[test]
fn rgb24_to_rgba8_expands_and_sets_opaque_alpha() {
    let rgb = [1u8, 2, 3, 4, 5, 6];
    assert_eq!(
        rgb24_to_rgba8(&rgb),
        vec![1, 2, 3, 0xFF, 4, 5, 6, 0xFF],
        "each pixel gains an opaque alpha byte"
    );
}

#[test]
fn a_trailing_partial_pixel_is_dropped() {
    assert_eq!(rgb24_to_rgba8(&[9, 8, 7, 6]), vec![9, 8, 7, 0xFF]);
}

#[test]
fn the_decoder_output_is_taken_when_it_agrees_with_itself() {
    let data = [0xFF, 0xD8, 0x00, 0xFF, 0xD9];
    let f = decode_to_rgb24(&data, Ok((vec![7; 2 * 3 * 3], Some((2, 3))))).expect("consistent");
    assert_eq!((f.width, f.height), (2, 3));
    assert_eq!(f.rgb24, vec![7; 18]);
}

#[test]
fn a_buffer_that_disagrees_with_the_geometry_is_inconsistent() {
    let data = [0xFF, 0xD8, 0xFF, 0xD9];
    let err = decode_to_rgb24(&data, Ok((vec![0; 11], Some((2, 2))))).unwrap_err();
    assert_eq!(
        err.message(),
        "MJPEG decode inconsistent: decoder returned 11 bytes for 2x2 RGB24, expected 12"
    );
}

#[test]
fn missing_image_info_and_decoder_errors_are_decode_errors() {
    let data = [0xFF, 0xD8, 0xFF, 0xD9];
    assert_eq!(
        decode_to_rgb24(&data, Ok((vec![], None))).unwrap_err().message(),
        "MJPEG decode failed: decoder reported no image info"
    );
    assert_eq!(
        decode_to_rgb24(&data, Err(String::from("bad huffman table"))).unwrap_err(),
        MjpegError::Decode(String::from("bad huffman table"))
    );
}

#[test]
fn a_torn_stream_is_refused_whatever_the_decoder_said() {
    let torn = [0xFF, 0xD8, 0x01, 0x02];
    assert_eq!(
        decode_to_rgb24(&torn, Ok((vec![0; 3], Some((1, 1))))).unwrap_err().message(),
        "MJPEG decode failed: no EOI marker: frame is truncated or not a JPEG"
    );
}
