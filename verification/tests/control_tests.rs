use iris::control::{normalise_control_name, resolve_auto_support, AutoSupport, CameraControl, ControlCapability};
use iris::control_service::{auto_request, capabilities_from, check_set, find_capability, profile_from_capabilities};
use iris::device::ControlCapabilityInfo;
use iris::error::IrisError;
use iris::profile::{profile_names, safe_profile_file_name, CameraProfile};

fn info(id: u32, name: &str, min: i64, max: i64, step: i64, default: i64) -> ControlCapabilityInfo {
    ControlCapabilityInfo { id, name: name.to_string(), min, max, step, default }
}

fn cap(min: i64, max: i64, step: i64, default: i64) -> ControlCapability {
    ControlCapability::from_hal(&info(0, "brightness", min, max, step, default), default, AutoSupport::NoCompanion)
}

#[test]
fn known_names_resolve_and_round_trip() {
    for name in [
        "brightness", "contrast", "saturation", "sharpness", "gamma", "hue",
        "white_balance", "backlight_compensation", "gain", "exposure", "focus",
        "zoom", "pan", "tilt",
    ] {
        let c = CameraControl::from_name(name);
        assert_eq!(c.name(), name, "{name} must round-trip through from_name/name");
    }
}

#[test]
fn platform_spellings_map_to_one_control() {
    for alias in ["white_balance_temperature", "whitebalance", "White Balance"] {
        assert_eq!(
            CameraControl::from_name(alias),
            CameraControl::WhiteBalance,
            "{alias:?} must resolve to WhiteBalance"
        );
    }
    assert_eq!(CameraControl::from_name("exposure_time_absolute"), CameraControl::Exposure);
    assert_eq!(CameraControl::from_name("focus_absolute"), CameraControl::Focus);
}

#[test]
fn an_unknown_name_becomes_custom_and_keeps_its_text() {
    let c = CameraControl::from_name("power_line_frequency");
    assert_eq!(c, CameraControl::Custom("power_line_frequency".into()));
    assert_eq!(c.name(), "power_line_frequency");
}

#[test]
fn a_value_outside_the_range_is_refused() {
    let c = cap(0, 64, 1, 32);
    assert!(!c.validate_value(-1));
    assert!(!c.validate_value(65));
    assert!(c.validate_value(0));
    assert!(c.validate_value(64));
}

#[test]
fn a_value_off_the_step_grid_is_refused() {
    let c = cap(0, 64, 4, 0);
    assert!(c.validate_value(8));
    assert!(!c.validate_value(5));
    let offset = cap(3, 63, 4, 3);
    assert!(offset.validate_value(7), "the grid starts at min, not at zero");
    assert!(!offset.validate_value(8));
}

#[test]
fn a_non_positive_step_falls_back_to_range_only() {
    let c = cap(0, 10, 0, 5);
    assert!(c.validate_value(7));
    assert!(!c.validate_value(11));
}

#[test]
fn clamping_snaps_to_the_nearest_grid_point_inside_the_range() {
    let c = cap(0, 64, 4, 0);
    assert_eq!(c.clamp_value(-5), 0);
    assert_eq!(c.clamp_value(100), 64);
    assert_eq!(c.clamp_value(5), 4, "nearer the lower grid point");
    assert_eq!(c.clamp_value(6), 8, "nearer the upper grid point");
    assert!(
        c.validate_value(c.clamp_value(37)),
        "clamping must always produce an acceptable value"
    );
}

#[test]
fn clamping_never_leaves_the_grid_at_the_top_of_the_range() {
    // 0..=10 in steps of 4: 12 is out of range, so 10 clamps to 8.
    let c = cap(0, 10, 4, 0);
    assert_eq!(c.clamp_value(10), 8);
    assert_eq!(c.clamp_value(9), 8);
    assert!(c.validate_value(c.clamp_value(10)));
    assert!(!c.validate_value(10));
}

#[test]
fn a_boolean_companion_is_toggleable() {
    let all = vec![
        info(1, "white_balance_temperature", 2800, 6500, 1, 4000),
        info(2, "white_balance_automatic", 0, 1, 1, 1),
    ];
    match resolve_auto_support(&all, "white_balance_temperature") {
        AutoSupport::Toggleable { companion_id, .. } => assert_eq!(companion_id, 2),
        other => panic!("expected Toggleable, got {other:?}"),
    }
}

#[test]
fn a_menu_companion_is_not_toggled_blindly() {
    let all = vec![
        info(1, "exposure_time_absolute", 3, 2047, 1, 166),
        info(2, "auto_exposure", 0, 3, 1, 3),
    ];
    match resolve_auto_support(&all, "exposure_time_absolute") {
        AutoSupport::NotToggleable { companion_name, reason } => {
            assert_eq!(companion_name, "auto_exposure");
            assert!(reason.contains("menu"), "the reason must say why: {reason}");
            assert_eq!(
                reason,
                "companion is a menu (min 0 max 3), not a boolean; its values are mode-specific and cannot be inferred"
            );
        }
        other => panic!("expected NotToggleable, got {other:?}"),
    }
}

#[test]
fn a_punctuated_driver_name_still_matches_its_companion() {
    let all = vec![
        info(9, "White Balance, Automatic", 0, 1, 1, 1),
        info(12, "White Balance", 2800, 6500, 1, 4000),
    ];
    assert_eq!(normalise_control_name("White Balance, Automatic"), "white_balance_automatic");
    match resolve_auto_support(&all, "White Balance") {
        AutoSupport::Toggleable { companion_id, .. } => assert_eq!(companion_id, 9),
        other => panic!("a comma must not hide the companion, got {other:?}"),
    }
}

#[test]
fn normalisation_collapses_punctuation_and_runs() {
    for (raw, want) in [
        ("Exposure Time, Absolute", "exposure_time_absolute"),
        ("  White-Balance   Temperature ", "white_balance_temperature"),
        ("Backlight Compensation", "backlight_compensation"),
        ("__gain__", "gain"),
    ] {
        assert_eq!(normalise_control_name(raw), want, "{raw:?}");
    }
}

#[test]
fn normalisation_is_idempotent_and_drops_non_ascii() {
    let once = normalise_control_name("Zoom,\u{00a0}Absolute\u{2003}(µm)");
    assert_eq!(once, "zoom_absolute_m");
    assert_eq!(normalise_control_name(&once), once);
    assert_eq!(normalise_control_name("  "), "");
}

#[test]
fn no_companion_means_no_auto_support() {
    let all = vec![info(1, "brightness", -64, 64, 1, 0)];
    assert_eq!(resolve_auto_support(&all, "brightness"), AutoSupport::NoCompanion);
    assert!(!AutoSupport::NoCompanion.is_toggleable());
}

#[test]
fn a_companion_for_a_different_control_is_not_borrowed() {
    let all = vec![
        info(1, "focus_absolute", 0, 255, 5, 0),
        info(2, "white_balance_automatic", 0, 1, 1, 1),
    ];
    assert_eq!(resolve_auto_support(&all, "focus_absolute"), AutoSupport::NoCompanion);
}

fn typical_controls() -> Vec<ControlCapabilityInfo> {
    vec![
        info(10, "Brightness", -64, 64, 1, 0),
        info(11, "Contrast", 0, 64, 4, 32),
        info(12, "white_balance_temperature", 2800, 6500, 1, 4600),
        info(13, "white_balance_automatic", 0, 1, 1, 1),
        info(14, "exposure_time_absolute", 3, 2047, 1, 166),
        info(15, "auto_exposure", 0, 3, 1, 3),
    ]
}

#[test]
fn listing_reports_the_devices_controls_with_auto_resolved() {
    let infos = typical_controls();
    let reads = vec![Some(5), None, Some(5000), Some(1), Some(200), Some(3)];
    let caps = capabilities_from(&infos, &reads);
    assert_eq!(caps.len(), 6);
    assert_eq!(caps[0].current, 5);
    assert_eq!(caps[1].current, 32, "an unreadable control is reported at its default");
    let wb = &caps[2];
    assert_eq!(wb.control, CameraControl::WhiteBalance);
    assert!(wb.auto.is_toggleable(), "boolean companion must be toggleable");
    assert!(matches!(caps[4].auto, AutoSupport::NotToggleable { .. }));
}

#[test]
fn an_invalid_set_is_refused_with_its_range() {
    let caps = capabilities_from(&typical_controls(), &vec![None; 6]);
    let i = find_capability(&caps, &CameraControl::Brightness).expect("present");
    let err = check_set(&caps[i], &CameraControl::Brightness, 100).unwrap_err();
    assert_eq!(
        err,
        IrisError::Control("brightness = 100 is out of range (min -64 max 64 step 1); nearest acceptable is 64".into())
    );
    assert!(check_set(&caps[i], &CameraControl::Brightness, 12).is_ok());
}

#[test]
fn an_off_grid_set_is_refused_and_names_the_nearest_value() {
    let caps = capabilities_from(&typical_controls(), &vec![None; 6]);
    let i = find_capability(&caps, &CameraControl::Contrast).expect("present");
    let msg = match check_set(&caps[i], &CameraControl::Contrast, 33) {
        Err(IrisError::Control(m)) => m,
        other => panic!("expected a refusal, got {other:?}"),
    };
    assert!(msg.contains("step 4"), "the message must say why: {msg}");
    assert!(msg.contains("nearest acceptable is 32"), "{msg}");
}

#[test]
fn a_control_the_device_lacks_is_reported_not_guessed() {
    let caps = capabilities_from(&typical_controls(), &vec![None; 6]);
    let err = find_capability(&caps, &CameraControl::Zoom).unwrap_err();
    assert_eq!(err.message(), "control error: this device does not expose a \"zoom\" control");
    assert!(err.message().contains("does not expose"));
}

#[test]
fn auto_toggles_the_companion_control() {
    let caps = capabilities_from(&typical_controls(), &vec![None; 6]);
    let i = find_capability(&caps, &CameraControl::WhiteBalance).unwrap();
    assert_eq!(auto_request(&caps[i], &CameraControl::WhiteBalance, false).unwrap(), (13, 0));
    assert_eq!(auto_request(&caps[i], &CameraControl::WhiteBalance, true).unwrap(), (13, 1));
}

#[test]
fn auto_on_a_menu_companion_is_refused_with_the_reason() {
    let caps = capabilities_from(&typical_controls(), &vec![None; 6]);
    let i = find_capability(&caps, &CameraControl::Exposure).unwrap();
    let msg = match auto_request(&caps[i], &CameraControl::Exposure, true) {
        Err(IrisError::Control(m)) => m,
        other => panic!("expected a refusal, got {other:?}"),
    };
    assert!(msg.contains("auto_exposure"), "{msg}");
    assert!(msg.contains("cannot be toggled blindly"), "{msg}");
    let b = find_capability(&caps, &CameraControl::Brightness).unwrap();
    assert_eq!(
        auto_request(&caps[b], &CameraControl::Brightness, true).unwrap_err(),
        IrisError::Control("this device exposes no automation control for brightness".into())
    );
}

#[test]
fn a_profile_saves_current_values() {
    let infos = typical_controls();
    let caps = capabilities_from(&infos, &vec![Some(7), None, Some(5000), Some(1), None, None]);
    let autos = vec![None, None, Some(0), None, None, None];
    let p = profile_from_capabilities("studio", &caps, &autos);
    assert_eq!(p.name, "studio");
    assert_eq!(p.get(&CameraControl::Brightness), Some(7));
    assert_eq!(p.get(&CameraControl::WhiteBalance), Some(5000));
    assert_eq!(p.get_auto(&CameraControl::WhiteBalance), Some(false));
    assert_eq!(p.get_auto(&CameraControl::Exposure), None);
}

#[test]
fn profile_values_are_kept_sorted_and_replaced() {
    let mut p = CameraProfile::new("order");
    assert!(p.is_empty());
    for c in [CameraControl::Zoom, CameraControl::Brightness, CameraControl::Gain] {
        p.set(&c, 1);
    }
    p.set(&CameraControl::Gain, 9);
    let keys: Vec<&str> = p.values.iter().map(|(k, _)| k.as_str()).collect();
    assert_eq!(keys, vec!["brightness", "gain", "zoom"]);
    assert_eq!(p.get(&CameraControl::Gain), Some(9));
    assert_eq!(p.get(&CameraControl::Pan), None);
    p.set_auto(&CameraControl::Focus, true);
    assert_eq!(p.get_auto(&CameraControl::Focus), Some(true));
    assert!(!p.is_empty());
}

#[test]
fn a_traversing_profile_name_has_no_file_name() {
    for bad in ["../escape", "a/b", "..", "", "   ", "a\\b", "nul\0byte"] {
        assert!(safe_profile_file_name(bad).is_err(), "{bad:?} must be refused as a profile name");
    }
    assert_eq!(safe_profile_file_name(" studio ").unwrap(), "studio.json");
    assert_eq!(
        safe_profile_file_name("a/b").unwrap_err(),
        IrisError::Control("profile name \"a/b\" is not a plain name \u{2014} path separators and traversal are refused".into())
    );
    assert_eq!(safe_profile_file_name("  ").unwrap_err(), IrisError::Control("profile name is empty".into()));
}

#[test]
fn profiles_are_keyed_by_name_not_by_platform_id() {
    let mut p = CameraProfile::new("x");
    p.set(&CameraControl::WhiteBalance, 4000);
    assert_eq!(p.values, vec![("white_balance".to_string(), 4000)]);
    assert_eq!(p.get(&CameraControl::from_name("White Balance Temperature")), Some(4000));
}

#[test]
fn saved_keys_are_in_a_stable_order() {
    let mut p = CameraProfile::new("order");
    for c in [CameraControl::Zoom, CameraControl::Brightness, CameraControl::Gain] {
        p.set(&c, 1);
    }
    let keys: Vec<&str> = p.values.iter().map(|(k, _)| k.as_str()).collect();
    assert_eq!(keys, vec!["brightness", "gain", "zoom"]);
}

#[test]
fn a_store_lists_the_stems_of_its_json_files_sorted() {
    let files: Vec<String> = ["studio.json", "night.json", ".json", "notes.txt", "day.json.tmp", "Zeta.json", "..json"]
        .iter()
        .map(|s| s.to_string())
        .collect();
    assert_eq!(profile_names(&files), vec![".", "Zeta", "night", "studio"]);
    assert!(profile_names(&Vec::new()).is_empty());
}

#[test]
fn a_key_keeps_the_letters_and_digits_in_order_with_single_separators() {
    let key = normalise_control_name("--Gain (dB) 2__X--");
    assert_eq!(key, "gain_db_2_x");
    let letters: String = "--Gain (dB) 2__X--".chars().filter(|c| c.is_ascii_alphanumeric()).map(|c| c.to_ascii_lowercase()).collect();
    assert_eq!(key.replace('_', ""), letters);
    assert!(!key.starts_with('_') && !key.ends_with('_') && !key.contains("__"));
}
