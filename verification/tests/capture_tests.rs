use iris::capture::{apply_roi, bgra_rows_to_rgb, roi_fits_exec, CaptureFrame, Roi};
use iris::capture_service::{
    choose_device, decode_needed, roi_applicable, CaptureCommand, CaptureConfig, CaptureCore,
    CaptureReport, CaptureServiceState, DropPolicy, MockCaptureBackend,
};
use iris::device::{DeviceId, DeviceInfo, PixelFormat};
use iris::mjpeg::DecoderOutput;
use std::str::FromStr;
use zune_jpeg::zune_core::bytestream::ZCursor;
use zune_jpeg::zune_core::colorspace::ColorSpace;
use zune_jpeg::zune_core::options::DecoderOptions;
use zune_jpeg::JpegDecoder;

/// The JPEG decoder's output for `data`, as the runtime hands it over.
fn zune(data: &[u8]) -> DecoderOutput {
    let options = DecoderOptions::default().jpeg_set_out_colorspace(ColorSpace::RGB);
    let mut decoder = JpegDecoder::new_with_options(ZCursor::new(data), options);
    match decoder.decode() {
        Ok(pixels) => Ok((pixels, decoder.info().map(|i| (i.width, i.height)))),
        Err(e) => Err(e.to_string()),
    }
}

/// Hand a frame to the core as the capture loop does, with the decoder's
/// output for it where the frame is cropped as MJPEG.
fn feed(core: &mut CaptureCore, f: CaptureFrame) -> Option<CaptureReport> {
    let jpeg = if decode_needed(&f, core.roi) { zune(&f.data) } else { Err(String::new()) };
    core.on_frame(f, jpeg)
}

/// Crop as the capture path does, with the decoder's output for the frame.
fn crop(frame: &mut CaptureFrame, roi: Roi) {
    let jpeg = zune(&frame.data);
    apply_roi(frame, roi, jpeg);
}

fn tiny_jpeg() -> Vec<u8> {
    let mut rgb = Vec::new();
    for y in 0..16u32 {
        for x in 0..16u32 {
            rgb.extend_from_slice(&[(x * 16) as u8, (y * 16) as u8, 128]);
        }
    }
    let mut out = Vec::new();
    jpeg_encoder::Encoder::new(&mut out, 90)
        .encode(&rgb, 16, 16, jpeg_encoder::ColorType::Rgb)
        .expect("encode fixture");
    out
}

fn mjpeg_frame(data: Vec<u8>) -> CaptureFrame {
    CaptureFrame {
        sequence: 1,
        width: 16,
        height: 16,
        format: PixelFormat::Mjpeg,
        data,
        timestamp_us: 0,
        is_cropped: false,
    }
}

fn config(w: u32, h: u32, format: PixelFormat, depth: usize, policy: DropPolicy, roi: Option<Roi>) -> CaptureConfig {
    CaptureConfig { width: w, height: h, target_fps: 30, format, max_queue_depth: depth, drop_policy: policy, roi }
}

fn next_frame(backend: &mut MockCaptureBackend) -> CaptureFrame {
    backend.next_frame_at(CaptureFrame::now_us()).expect("frame")
}

#[test]
fn test_expected_size() {
    assert_eq!(
        CaptureFrame::expected_size(640, 480, PixelFormat::Rgb24),
        640 * 480 * 3
    );
}

#[test]
fn expected_size_is_zero_for_compressed_mjpeg() {
    assert_eq!(CaptureFrame::expected_size(1920, 1080, PixelFormat::Mjpeg), 0);
    assert_eq!(
        CaptureFrame::expected_size(1920, 1080, PixelFormat::Nv12),
        1920 * 1080 * 3 / 2
    );
    assert_eq!(
        CaptureFrame::expected_size(1920, 1080, PixelFormat::Yuyv),
        1920 * 1080 * 2
    );
}

#[test]
fn test_roi_validation_valid() {
    let r = Roi { x: 0, y: 0, width: 10, height: 10 };
    assert!(r.validate(20, 20));
}

#[test]
fn test_roi_validation_invalid() {
    let r = Roi { x: 15, y: 15, width: 10, height: 10 };
    assert!(!r.validate(20, 20));
}

#[test]
fn an_empty_roi_is_invalid() {
    assert!(!Roi { x: 0, y: 0, width: 0, height: 4 }.validate(20, 20));
}

#[test]
fn roi_on_mjpeg_decodes_and_crops() {
    let mut frame = mjpeg_frame(tiny_jpeg());
    crop(&mut frame, Roi { x: 2, y: 2, width: 8, height: 8 });
    assert_eq!(frame.format, PixelFormat::Rgb24, "cropping MJPEG must decode it");
    assert_eq!((frame.width, frame.height), (8, 8), "ROI geometry applied");
    assert!(frame.is_cropped, "frame must report itself cropped");
    assert_eq!(frame.data.len(), 8 * 8 * 3, "cropped RGB24 must be tightly packed");
}

#[test]
fn roi_on_corrupt_mjpeg_leaves_frame_untouched() {
    let corrupt = vec![0xFF, 0xD8, 0x11, 0x22, 0x33];
    let mut frame = mjpeg_frame(corrupt.clone());
    crop(&mut frame, Roi { x: 2, y: 2, width: 8, height: 8 });
    assert_eq!(frame.format, PixelFormat::Mjpeg, "format must not change");
    assert_eq!(frame.data, corrupt, "data must not be modified");
    assert_eq!((frame.width, frame.height), (16, 16), "geometry unchanged");
    assert!(!frame.is_cropped, "must report itself uncropped");
}

#[test]
fn rgb_cropping_takes_the_region_rows() {
    // 4x2 RGB24 with byte = pixel index
    let data: Vec<u8> = (0..8u8).flat_map(|p| [p, p, p]).collect();
    let mut frame = CaptureFrame { sequence: 1, width: 4, height: 2, format: PixelFormat::Rgb24, data, timestamp_us: 0, is_cropped: false };
    crop(&mut frame, Roi { x: 1, y: 0, width: 2, height: 2 });
    assert_eq!((frame.width, frame.height), (2, 2));
    assert_eq!(frame.data, vec![1, 1, 1, 2, 2, 2, 5, 5, 5, 6, 6, 6]);
    assert!(frame.is_cropped);
}

#[test]
fn drop_policy_parses_its_two_names() {
    assert_eq!(DropPolicy::from_str("oldest"), Ok(DropPolicy::Oldest));
    assert_eq!(DropPolicy::from_str("newest"), Ok(DropPolicy::Newest));
    assert_eq!(DropPolicy::from_str("Oldest"), Err(()));
}

#[test]
fn test_mock_backend_start_stop() {
    let cfg = config(640, 480, PixelFormat::Rgb24, 4, DropPolicy::Oldest, None);
    let mut backend = MockCaptureBackend::new(cfg);
    assert!(!backend.is_capturing());
    backend.start();
    assert!(backend.is_capturing());
    backend.stop();
    assert!(!backend.is_capturing());
    assert!(backend.next_frame_at(0).is_err(), "a stopped backend gives no frames");
}

#[test]
fn test_mock_backend_next_frame() {
    let cfg = config(640, 480, PixelFormat::Rgb24, 4, DropPolicy::Oldest, None);
    let mut backend = MockCaptureBackend::new(cfg);
    backend.start();
    let f = next_frame(&mut backend);
    assert_eq!(f.sequence, 1);
    assert_eq!((f.width, f.height), (640, 480));
    assert_eq!(f.data.len(), 640 * 480 * 3);
    assert!(f.data.iter().all(|b| *b == 128));
}

#[test]
fn test_mock_backend_multiple_frames() {
    let cfg = config(8, 8, PixelFormat::Nv12, 4, DropPolicy::Oldest, None);
    let mut backend = MockCaptureBackend::new(cfg);
    backend.start();
    for i in 1..=5 {
        assert_eq!(next_frame(&mut backend).sequence, i);
    }
    assert_eq!(backend.frame_interval_ms(), 33);
}

#[test]
fn an_mjpeg_mock_frame_is_one_byte() {
    let cfg = config(8, 8, PixelFormat::Mjpeg, 4, DropPolicy::Oldest, None);
    let mut backend = MockCaptureBackend::new(cfg);
    backend.start();
    assert_eq!(next_frame(&mut backend).data, vec![128]);
}

#[test]
fn test_capture_service_drop_policy_oldest() {
    let cfg = config(8, 8, PixelFormat::Rgb24, 2, DropPolicy::Oldest, None);
    let mut backend = MockCaptureBackend::new(cfg);
    backend.start();
    let mut core = CaptureCore::new(cfg);
    for _ in 0..3 {
        let f = next_frame(&mut backend);
        assert!(feed(&mut core, f).is_some());
    }
    assert_eq!(core.queue.len(), 2);
    assert_eq!(core.queue[0].sequence, 2, "the oldest frame was evicted");
    assert_eq!(core.frame_count, 3);
    assert_eq!(core.drop_count, 0);
}

#[test]
fn the_newest_policy_drops_the_incoming_frame() {
    let cfg = config(8, 8, PixelFormat::Rgb24, 2, DropPolicy::Newest, None);
    let mut backend = MockCaptureBackend::new(cfg);
    backend.start();
    let mut core = CaptureCore::new(cfg);
    let mut reports = 0;
    for _ in 0..3 {
        if feed(&mut core, next_frame(&mut backend)).is_some() {
            reports += 1;
        }
    }
    assert_eq!(reports, 2);
    assert_eq!(core.queue.iter().map(|f| f.sequence).collect::<Vec<_>>(), vec![1, 2]);
    assert_eq!((core.frame_count, core.drop_count), (2, 1));
    assert_eq!(core.take_next().map(|f| f.sequence), Some(1));
    assert_eq!(core.queue.len(), 1);
}

#[test]
fn test_capture_service_pause_resume() {
    let cfg = config(8, 8, PixelFormat::Rgb24, 2, DropPolicy::Newest, None);
    let mut core = CaptureCore::new(cfg);
    core.started();
    assert_eq!(core.state, CaptureServiceState::Capturing);
    assert!(!core.on_command(CaptureCommand::Pause));
    assert_eq!(core.state, CaptureServiceState::Paused);
    assert!(!core.on_command(CaptureCommand::Resume));
    assert_eq!(core.state, CaptureServiceState::Capturing);
    assert!(!core.on_command(CaptureCommand::SetFps(15)));
    assert_eq!(core.config.target_fps, 15);
    assert!(core.on_command(CaptureCommand::Stop));
    assert_eq!(core.state, CaptureServiceState::Idle);
}

#[test]
fn test_capture_service_roi() {
    let roi = Some(Roi { x: 0, y: 0, width: 16, height: 12 });
    let cfg = config(32, 24, PixelFormat::Rgb24, 4, DropPolicy::Newest, roi);
    let mut backend = MockCaptureBackend::new(cfg);
    backend.start();
    let mut core = CaptureCore::new(cfg);
    let f = next_frame(&mut backend);
    assert!(roi_applicable(&f, core.roi));
    let report = feed(&mut core, f).expect("queued");
    assert!(core.queue[0].is_cropped);
    assert_eq!(report.resolution, "16x12");
    assert!(report.roi_active);
}

#[test]
fn test_nv12_misaligned_roi_rounds_down() {
    let roi = Some(Roi { x: 1, y: 1, width: 15, height: 11 });
    let cfg = config(32, 24, PixelFormat::Nv12, 4, DropPolicy::Newest, roi);
    let mut backend = MockCaptureBackend::new(cfg);
    backend.start();
    let mut core = CaptureCore::new(cfg);
    feed(&mut core, next_frame(&mut backend));
    let f = &core.queue[0];
    assert!(f.is_cropped);
    assert_eq!(f.width, 14);
    assert_eq!(f.height, 10);
    assert_eq!(f.data.len(), 14 * 10 * 3 / 2);
}

#[test]
fn test_nv12_misaligned_roi_too_small_skips_crop() {
    let roi = Some(Roi { x: 3, y: 3, width: 1, height: 1 });
    let cfg = config(4, 4, PixelFormat::Nv12, 4, DropPolicy::Newest, roi);
    let mut backend = MockCaptureBackend::new(cfg);
    backend.start();
    let mut core = CaptureCore::new(cfg);
    feed(&mut core, next_frame(&mut backend));
    let f = &core.queue[0];
    assert!(!f.is_cropped);
    assert_eq!(f.width, 4);
    assert_eq!(f.height, 4);
}

#[test]
fn test_telemetry_size_matches_frame_after_roi() {
    let roi = Some(Roi { x: 0, y: 0, width: 16, height: 12 });
    let cfg = config(32, 24, PixelFormat::Rgb24, 4, DropPolicy::Newest, roi);
    let mut backend = MockCaptureBackend::new(cfg);
    backend.start();
    let mut core = CaptureCore::new(cfg);
    let report = feed(&mut core, next_frame(&mut backend)).expect("queued");
    let frame = core.take_next().expect("frame");
    assert_eq!(report.size_bytes, frame.size_bytes());
    assert_eq!(report.format, "RGB24");
}

#[test]
fn frame_errors_are_reported_first_then_every_hundredth() {
    let cfg = config(8, 8, PixelFormat::Rgb24, 2, DropPolicy::Newest, None);
    let mut core = CaptureCore::new(cfg);
    let mut reported = Vec::new();
    for i in 1..=200u64 {
        if core.on_frame_error("boom", false) {
            reported.push(i);
        }
    }
    assert_eq!(reported, vec![1, 100, 200]);
    assert!(core.on_frame_error("boom", true), "five quiet seconds force a report");
    assert_eq!(core.state, CaptureServiceState::Error("frame error: boom".to_string()));
    core.start_failed("no camera");
    assert_eq!(core.state, CaptureServiceState::Error("start failed: no camera".to_string()));
}

#[test]
fn the_wanted_device_is_found_by_substring() {
    let devices = vec![
        DeviceInfo { id: DeviceId("/dev/video0".into()), name: "Integrated Camera".into() },
        DeviceInfo { id: DeviceId("/dev/video2".into()), name: "Logitech BRIO".into() },
    ];
    assert_eq!(choose_device(&devices, ""), 0);
    assert_eq!(choose_device(&devices, "BRIO"), 1);
    assert_eq!(choose_device(&devices, "/dev/video2"), 1);
    assert_eq!(choose_device(&devices, "video2"), 1);
    assert_eq!(choose_device(&devices, "nothing"), 0, "falls back to the first");
}

#[test]
fn desktop_frames_drop_alpha_and_row_padding() {
    // 2x2 BGRA with 12-byte rows: 8 bytes of pixels and 4 of padding.
    let src = vec![
        1, 2, 3, 255, 4, 5, 6, 255, 9, 9, 9, 9, //
        7, 8, 9, 255, 10, 11, 12, 255,
    ];
    let out = bgra_rows_to_rgb(&src, 12, 2, 2);
    assert_eq!(out, vec![3, 2, 1, 6, 5, 4, 9, 8, 7, 12, 11, 10]);
    assert!(bgra_rows_to_rgb(&[], 0, 0, 0).is_empty());
}

#[test]
fn crop_arithmetic_bounds_are_checked_at_the_frame_size() {
    let roi = Roi { x: 2, y: 2, width: 8, height: 8 };
    assert!(roi_fits_exec(16, 16, roi));
    assert!(roi_fits_exec(65535, 65535, roi));
    let huge = Roi { x: u32::MAX - 1, y: u32::MAX - 1, width: 1, height: 1 };
    assert!(!roi_fits_exec(u32::MAX, u32::MAX, huge));
}

#[test]
fn only_an_mjpeg_frame_under_a_fitting_roi_needs_the_decoder() {
    let roi = Some(Roi { x: 2, y: 2, width: 8, height: 8 });
    let jpeg = mjpeg_frame(tiny_jpeg());
    assert!(decode_needed(&jpeg, roi));
    assert!(!decode_needed(&jpeg, None));
    assert!(!decode_needed(&jpeg, Some(Roi { x: 12, y: 0, width: 8, height: 8 })));
    let rgb = CaptureFrame { sequence: 1, width: 16, height: 16, format: PixelFormat::Rgb24, data: vec![0; 768], timestamp_us: 0, is_cropped: false };
    assert!(!decode_needed(&rgb, roi));
}

#[test]
fn an_mjpeg_frame_is_queued_cropped_through_the_core() {
    let roi = Some(Roi { x: 0, y: 0, width: 8, height: 4 });
    let cfg = config(16, 16, PixelFormat::Mjpeg, 2, DropPolicy::Oldest, roi);
    let mut core = CaptureCore::new(cfg);
    let report = feed(&mut core, mjpeg_frame(tiny_jpeg())).expect("queued");
    assert_eq!(report.resolution, "8x4");
    assert_eq!(report.format, "RGB24");
    assert_eq!(core.queue[0].data.len(), 8 * 4 * 3);
}
