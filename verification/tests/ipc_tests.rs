use iris::ipc::{line_payload, producer_after, resolve_unix_socket_path, server_reply, socket_path_text, Dispatcher, IpcCommand, Reply};

#[test]
fn an_explicit_socket_wins() {
    let p = resolve_unix_socket_path(Some("/run/custom.sock".into()), Some("/run/user/1000".into()));
    assert_eq!(p.to_str(), Some("/run/custom.sock"));
}

#[test]
fn the_runtime_dir_is_used_when_no_explicit_socket() {
    let p = resolve_unix_socket_path(None, Some("/run/user/1000".into()));
    assert_eq!(p.to_str(), Some("/run/user/1000/iris-stream.sock"));
}

#[test]
fn tmp_is_the_last_resort() {
    let p = resolve_unix_socket_path(None, None);
    assert_eq!(p.to_str(), Some("/tmp/iris-stream.sock"));
}

#[test]
fn empty_env_values_are_treated_as_unset() {
    assert_eq!(
        resolve_unix_socket_path(Some(String::new()), Some(String::new())).to_str(),
        Some("/tmp/iris-stream.sock")
    );
}

#[test]
fn the_default_paths_fit_in_sun_path() {
    const SUN_PATH_MAX: usize = 108;
    for p in [
        resolve_unix_socket_path(None, None),
        resolve_unix_socket_path(None, Some("/run/user/1000".into())),
    ] {
        let len = p.as_os_str().len();
        assert!(len < SUN_PATH_MAX, "{p:?} is {len} bytes, too long to bind");
    }
}

#[test]
fn a_runtime_dir_with_a_trailing_slash_gets_no_second_one() {
    assert_eq!(socket_path_text(None, Some("/run/user/1000/".into())), "/run/user/1000/iris-stream.sock");
}

#[test]
fn the_bridge_dispatcher_answers() {
    let mut d = Dispatcher::new();
    assert_eq!(d.reply(&IpcCommand::Ping), Reply::Pong { uptime_ms: 0 });
    assert_eq!(d.reply(&IpcCommand::ListDevices), Reply::DeviceList { devices: vec![] });
    assert_eq!(d.reply(&IpcCommand::Subscribe), Reply::SubscriberId { id: 1 });
    assert_eq!(d.reply(&IpcCommand::GetStatus), Reply::Empty);
}

#[test]
fn the_server_answers_ping_and_status() {
    assert_eq!(server_reply(&IpcCommand::Ping, 99), Reply::Pong { uptime_ms: 99 });
    assert_eq!(
        server_reply(&IpcCommand::GetStatus, 99),
        Reply::Status { capture_state: "Disconnected".into(), device_name: String::new(), frame_count: 0, subscriber_count: 0 }
    );
    assert_eq!(server_reply(&IpcCommand::ShowUi, 99), Reply::Empty);
}

#[test]
fn the_producer_follows_capture_commands() {
    assert_eq!(producer_after(&IpcCommand::StartCapture, true, false), (true, true));
    assert_eq!(producer_after(&IpcCommand::StartCapture, true, true), (true, false));
    assert_eq!(producer_after(&IpcCommand::StartCapture, false, false), (false, false));
    assert_eq!(producer_after(&IpcCommand::PauseCapture, true, true), (false, false));
    assert_eq!(producer_after(&IpcCommand::Ping, true, true), (true, false));
}

#[test]
fn blank_lines_are_skipped() {
    assert_eq!(line_payload("   \t"), None);
    assert_eq!(line_payload("  {\"id\":1} \r"), Some("{\"id\":1}".to_string()));
}
