use iris::hrt::{HrtAction, HrtControl, HrtState, HrtStatus};

#[test]
fn test_hrt_start_stop() {
    let mut s = HrtState::new(2000);
    assert_eq!(s.status, HrtStatus::Idle);
    assert_eq!(s.on_command(HrtControl::Start), HrtAction::Continue);
    assert_eq!(s.status, HrtStatus::Monitoring);
    assert!(s.on_tick());
    assert_eq!(s.on_command(HrtControl::Stop), HrtAction::Continue);
    assert_eq!(s.status, HrtStatus::Stopped);
    assert!(!s.on_tick());
}

#[test]
fn test_hrt_force_check() {
    let mut s = HrtState::new(2000);
    s.on_command(HrtControl::Start);
    assert_eq!(s.on_command(HrtControl::ForceCheck), HrtAction::Check);
    assert_eq!(s.status, HrtStatus::Monitoring);
}

#[test]
fn a_forced_check_runs_even_when_idle() {
    let mut s = HrtState::new(2000);
    assert!(!s.on_tick());
    assert_eq!(s.on_command(HrtControl::ForceCheck), HrtAction::Check);
    assert_eq!(s.status, HrtStatus::Idle);
}

#[test]
fn test_hrt_set_interval() {
    let mut s = HrtState::new(2000);
    assert_eq!(s.on_command(HrtControl::SetInterval { interval_ms: 5 }), HrtAction::ResetTimer);
    assert_eq!(s.interval_ms, 5);
    assert_eq!(s.status, HrtStatus::Idle);
    s.on_command(HrtControl::Start);
    assert!(s.on_tick());
    assert_eq!(s.interval_ms, 5);
}

#[test]
fn test_hrt_shutdown() {
    let mut s = HrtState::new(2000);
    assert_eq!(s.on_command(HrtControl::Shutdown), HrtAction::Exit);
    assert_eq!(s.status, HrtStatus::Stopped);
}
