use iris::config::{IrisConfig, ALLOWED_PIXEL_FORMATS};
use iris::error::IrisError;

#[test]
fn the_default_config_is_valid() {
    IrisConfig::default()
        .validate(true)
        .expect("the built-in defaults must pass the checks applied at startup");
}

#[test]
fn test_default_config() {
    let cfg = IrisConfig::default();
    assert_eq!(cfg.capture.width, 3840);
    assert_eq!(cfg.capture.target_fps, 30);
    assert_eq!(cfg.stream.default_mode, "pull");
    assert_eq!(cfg.logging.level, "info");
}

#[test]
fn test_config_validation_valid() {
    let cfg = IrisConfig::default();
    assert!(cfg.validate(true).is_ok());
}

#[test]
fn test_config_validation_invalid_fps() {
    let mut cfg = IrisConfig::default();
    cfg.capture.target_fps = 0;
    assert!(cfg.validate(true).is_err());
}

#[test]
fn test_config_validation_invalid_resolution() {
    let mut cfg = IrisConfig::default();
    cfg.capture.width = 0;
    assert!(cfg.validate(true).is_err());
}

#[test]
fn test_config_validation_invalid_pixel_format() {
    let mut cfg = IrisConfig::default();
    cfg.capture.pixel_format = "invalid".to_string();
    assert!(cfg.validate(true).is_err());
}

#[test]
fn test_config_validation_invalid_drop_policy() {
    let mut cfg = IrisConfig::default();
    cfg.capture.drop_policy = "invalid".to_string();
    assert!(cfg.validate(true).is_err());
}

#[test]
fn every_allowed_pixel_format_validates() {
    for name in ALLOWED_PIXEL_FORMATS {
        let mut cfg = IrisConfig::default();
        cfg.capture.pixel_format = (*name).to_string();
        assert!(cfg.validate(true).is_ok(), "'{name}' is listed but rejected");
    }
}

#[test]
fn an_unproducible_pixel_format_is_rejected() {
    let mut cfg = IrisConfig::default();
    cfg.capture.pixel_format = "bgra8".to_string();
    assert!(cfg.validate(true).is_err());
}

#[test]
fn an_unknown_drop_policy_is_rejected() {
    let mut cfg = IrisConfig::default();
    cfg.capture.drop_policy = "banana".to_string();
    assert!(cfg.validate(true).is_err());
}

#[test]
fn an_out_of_range_frame_rate_is_rejected() {
    let mut cfg = IrisConfig::default();
    cfg.capture.target_fps = 0;
    assert!(cfg.validate(true).is_err());
    cfg.capture.target_fps = 241;
    assert!(cfg.validate(true).is_err());
}

#[test]
fn an_unknown_log_level_is_rejected() {
    let mut cfg = IrisConfig::default();
    cfg.logging.level = "chatty".to_string();
    assert!(cfg.validate(true).is_err());
}

#[test]
fn the_first_failing_check_is_the_one_reported() {
    let mut cfg = IrisConfig::default();
    cfg.capture.height = 5000;
    cfg.logging.level = "chatty".to_string();
    assert_eq!(cfg.validate(true), Err(IrisError::Config("height out of range".into())));
    let cfg = IrisConfig::default();
    assert_eq!(cfg.validate(false), Err(IrisError::Config("preview_scale out of range".into())));
    let mut cfg = IrisConfig::default();
    cfg.stream.ring_buffer_capacity = 1;
    assert_eq!(
        cfg.validate(true).unwrap_err().message(),
        "config error: ring_buffer_capacity must be >= 2"
    );
}
