use iris::device::{DeviceId, FormatDescriptor, PixelFormat};
use iris::error::HalError;
use iris::hal::{
    effective_caps, fourcc_to_pixel_format, is_capture_device, fps_from_interval, is_video_node, media_format,
    node_sort_key, nul_trimmed, parse_u32, push_format, sort_video_nodes, subtype_to_pixel_format,
    wmf_backend_device_entry, wmf_device_entry, MockUvcBackend, WmfSession, MF_VIDEO_FORMAT_NV12, MF_VIDEO_FORMAT_RGB32,
    VIDIOC_ENUM_FMT, VIDIOC_ENUM_FRAMEINTERVALS, VIDIOC_ENUM_FRAMESIZES, VIDIOC_QUERYCAP,
};
use iris::config::ALLOWED_PIXEL_FORMATS;

#[test]
fn v4l2_fourcc_maps_known_formats() {
    assert_eq!(fourcc_to_pixel_format(0x5659_5559), Some(PixelFormat::Yuyv));
    assert_eq!(fourcc_to_pixel_format(0x3231_564e), Some(PixelFormat::Nv12));
    assert_eq!(fourcc_to_pixel_format(0x3342_4752), Some(PixelFormat::Rgb24));
    assert_eq!(fourcc_to_pixel_format(0x3352_4742), Some(PixelFormat::Bgr24));
    assert_eq!(fourcc_to_pixel_format(0x4750_4a4d), Some(PixelFormat::Mjpeg));
    assert_eq!(fourcc_to_pixel_format(0xDEAD_BEEF), None);
}

#[test]
fn mjpeg_is_not_raw_but_others_are() {
    assert!(!PixelFormat::Mjpeg.is_raw());
    assert!(PixelFormat::Yuyv.is_raw());
    assert!(PixelFormat::Nv12.is_raw());
    assert!(PixelFormat::Rgb24.is_raw());
    assert!(PixelFormat::Bgr24.is_raw());
}

#[test]
fn pixel_format_display_includes_mjpeg() {
    assert_eq!(PixelFormat::Mjpeg.display_name(), "MJPEG");
    assert_eq!(PixelFormat::Yuyv.display_name(), "YUYV");
}

#[test]
fn v4l2_video_node_filter() {
    assert!(is_video_node("video0"));
    assert!(is_video_node("video12"));
    assert!(!is_video_node("video"));
    assert!(!is_video_node("radio0"));
    assert!(!is_video_node("videoX"));
    assert!(!is_video_node("subdev0"));
}

#[test]
fn v4l2_ioctl_numbers_match_abi() {
    assert_eq!(VIDIOC_QUERYCAP, 0x8068_5600);
    assert_eq!(VIDIOC_ENUM_FMT, 0xc040_5602);
    assert_eq!(VIDIOC_ENUM_FRAMESIZES, 0xc02c_564a);
    assert_eq!(VIDIOC_ENUM_FRAMEINTERVALS, 0xc034_564b);
}

#[test]
fn video_nodes_sort_numerically() {
    let nodes = vec!["video10".to_string(), "video2".to_string(), "video0".to_string(), "video1".to_string()];
    assert_eq!(sort_video_nodes(nodes), vec!["video0", "video1", "video2", "video10"]);
    assert_eq!(node_sort_key("video7"), 7);
    assert_eq!(node_sort_key("vid"), u32::MAX);
    assert_eq!(parse_u32("+12"), Some(12));
    assert_eq!(parse_u32("4294967296"), None);
    assert_eq!(parse_u32("4294967295"), Some(u32::MAX));
    assert_eq!(parse_u32(""), None);
    assert_eq!(parse_u32("1a"), None);
}

#[test]
fn nodes_with_equal_numbers_keep_their_order() {
    let nodes = vec!["videoB".to_string(), "video3".to_string(), "videoA".to_string(), "video03".to_string()];
    assert_eq!(sort_video_nodes(nodes), vec!["video3", "video03", "videoB", "videoA"]);
}

#[test]
fn invalid_utf8_in_a_card_name_is_replaced() {
    assert_eq!(nul_trimmed(&[b'C', 0xff, b'm', 0, b'x']), "C\u{fffd}m");
}

#[test]
fn capability_bits_and_intervals() {
    assert_eq!(effective_caps(0x8000_0001, 0x0000_0002), 0x0000_0002);
    assert_eq!(effective_caps(0x0000_0001, 0x0000_0002), 0x0000_0001);
    assert_eq!(fps_from_interval(true, 1, 1, 30), 30);
    assert_eq!(fps_from_interval(true, 1, 1001, 60000), 59);
    assert_eq!(fps_from_interval(false, 1, 1, 60), 30);
    assert_eq!(fps_from_interval(true, 2, 1, 60), 30);
    assert_eq!(fps_from_interval(true, 1, 0, 60), 30);
}

#[test]
fn card_names_stop_at_the_first_nul() {
    let mut card = [0u8; 32];
    card[..6].copy_from_slice(b"HD Cam");
    assert_eq!(nul_trimmed(&card), "HD Cam");
    assert_eq!(nul_trimmed(b"abc"), "abc");
}

#[test]
fn a_mode_is_listed_once() {
    let f = FormatDescriptor { width: 640, height: 480, fps: 30, pixel_format: PixelFormat::Yuyv };
    let mut v = Vec::new();
    push_format(&mut v, f);
    push_format(&mut v, f);
    assert_eq!(v.len(), 1);
}

#[test]
fn media_foundation_formats_decode() {
    assert_eq!(subtype_to_pixel_format(MF_VIDEO_FORMAT_NV12), Some(PixelFormat::Nv12));
    assert_eq!(subtype_to_pixel_format(MF_VIDEO_FORMAT_RGB32), Some(PixelFormat::Bgr24));
    assert_eq!(subtype_to_pixel_format(1), None);
    let f = media_format(MF_VIDEO_FORMAT_NV12, (1920u64 << 32) | 1080, Some((30u64 << 32) | 1)).unwrap();
    assert_eq!((f.width, f.height, f.fps), (1920, 1080, 30));
    let g = media_format(MF_VIDEO_FORMAT_NV12, (640u64 << 32) | 480, Some(60u64 << 32)).unwrap();
    assert_eq!(g.fps, 30, "a zero denominator falls back to 30");
    assert!(media_format(7, 0, None).is_none());
    let d = wmf_device_entry(2, None, Some("\\\\?\\usb#vid".to_string()));
    assert_eq!((d.id.0.as_str(), d.name.as_str()), ("\\\\?\\usb#vid", "Camera 2"));
    assert_eq!(wmf_device_entry(0, Some("Cam".into()), None).id.0, "vidcap-0");
}

#[test]
fn every_name_validate_accepts_can_actually_be_parsed() {
    for name in ALLOWED_PIXEL_FORMATS {
        assert!(PixelFormat::from_config_name(name).is_some(), "'{name}' is accepted but cannot be parsed");
    }
}

#[test]
fn every_canonical_name_round_trips() {
    for f in [PixelFormat::Rgb24, PixelFormat::Bgr24, PixelFormat::Nv12, PixelFormat::Yuyv, PixelFormat::Mjpeg] {
        let name = f.config_name();
        assert_eq!(PixelFormat::from_config_name(name), Some(f));
        assert!(ALLOWED_PIXEL_FORMATS.contains(&name), "'{name}' parses but validation would reject it");
    }
}

#[test]
fn yuy2_is_accepted_as_the_windows_spelling_of_yuyv() {
    assert_eq!(PixelFormat::from_config_name("yuy2"), Some(PixelFormat::Yuyv));
}

#[test]
fn parsing_is_case_insensitive() {
    assert_eq!(PixelFormat::from_config_name("NV12"), Some(PixelFormat::Nv12));
    assert_eq!(PixelFormat::from_config_name("MJPEG"), Some(PixelFormat::Mjpeg));
}

#[test]
fn unknown_and_unsupported_names_are_refused() {
    assert_eq!(PixelFormat::from_config_name("bgra8"), None);
    assert_eq!(PixelFormat::from_config_name(""), None);
    assert_eq!(PixelFormat::from_config_name("rgb32"), None);
}

#[test]
fn enumerate_returns_mock_device() {
    let b = MockUvcBackend::new();
    let devs = b.enumerate_devices();
    assert_eq!(devs.len(), 1);
    assert_eq!(devs[0].id.0, "mock-0");
    assert_eq!(devs[0].name, "Mock Camera");
}

#[test]
fn probe_capabilities_succeeds() {
    let b = MockUvcBackend::new();
    let caps = b.probe_capabilities(&DeviceId("mock-0".into())).expect("caps");
    assert_eq!(caps.formats[0].width, 640);
    assert!(matches!(b.probe_capabilities(&DeviceId("nope".into())), Err(HalError::DeviceNotFound)));
}

#[test]
fn open_close_device_flow() {
    let mut b = MockUvcBackend::new();
    let id = DeviceId("mock-0".into());
    b.open_device(&id).expect("open");
    assert!(matches!(b.open_device(&id), Err(HalError::DeviceAlreadyOpen)));
    b.close_device(&id).expect("close");
    assert!(matches!(b.close_device(&id), Err(HalError::DeviceNotOpen)));
}

#[test]
fn control_get_set() {
    let mut b = MockUvcBackend::new();
    let id = DeviceId("mock-0".into());
    assert_eq!(b.get_control(&id, 1), 128);
    b.set_control(&id, 1, 42).expect("set");
    assert_eq!(b.get_control(&id, 1), 42);
    b.set_control(&id, 1, 7).expect("set again");
    assert_eq!(b.get_control(&id, 1), 7);
    assert_eq!(b.get_control(&id, 2), 128);
    assert!(matches!(b.set_control(&DeviceId("x".into()), 1, 1), Err(HalError::DeviceNotFound)));
    assert_eq!(b.list_controls(&id).unwrap()[0].name, "Brightness");
}

#[test]
fn read_frame_requires_open() {
    let mut b = MockUvcBackend::new();
    let id = DeviceId("mock-0".into());
    assert!(matches!(b.read_frame(&id), Err(HalError::DeviceNotOpen)));
    b.open_device(&id).unwrap();
    let frame = b.read_frame(&id).expect("frame");
    assert_eq!(frame.len(), 640 * 480 * 3);
}

#[test]
fn the_capture_backend_names_unnamed_cameras_by_index() {
    let d = wmf_backend_device_entry(3, None, None);
    assert_eq!((d.name.as_str(), d.id.0.as_str()), ("Unknown Device 3", "wmf-3"));
    let d = wmf_backend_device_entry(0, Some("Cam".into()), Some("\\\\?\\usb#x".into()));
    assert_eq!((d.name.as_str(), d.id.0.as_str()), ("Cam", "\\\\?\\usb#x"));
}

#[test]
fn the_media_foundation_session_reads_only_from_its_device() {
    let cam = DeviceId("cam".into());
    let other = DeviceId("other".into());
    let mut s = WmfSession::new();
    assert_eq!(s.check_open(&cam), Err(HalError::DeviceNotOpen));
    s.opened(&cam, None);
    assert_eq!((s.current_width, s.current_height, s.current_format), (640, 480, PixelFormat::Bgr24));
    assert_eq!(s.check_open(&cam), Ok(()));
    assert_eq!(s.check_open(&other), Err(HalError::DeviceNotOpen));
    assert_eq!(s.close(&other), Err(HalError::DeviceNotOpen));
    assert_eq!(s.close(&cam), Ok(()));
    assert_eq!(s.check_open(&cam), Err(HalError::DeviceNotOpen));
    let mode = FormatDescriptor { width: 1280, height: 720, fps: 60, pixel_format: PixelFormat::Nv12 };
    s.opened(&other, Some(mode));
    assert_eq!((s.current_width, s.current_height, s.current_format), (1280, 720, PixelFormat::Nv12));
}

#[test]
fn only_nodes_that_capture_video_are_cameras() {
    // DEVICE_CAPS set: the per-node capabilities decide.
    assert!(!is_capture_device(0x8000_0001, 0x0080_0000));
    assert!(is_capture_device(0x8000_0000, 0x0000_0001));
    // Without it, the whole device's capabilities decide.
    assert!(is_capture_device(0x0000_0001, 0));
    assert!(!is_capture_device(0x0000_0002, 0x0000_0001));
}
