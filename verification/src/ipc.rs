//! The IPC vocabulary and the decisions of the IPC endpoints: commands, the
//! replies the built-in dispatchers give, the socket path, and the capture
//! producer the line-protocol bridge runs for its client. Serialisation and
//! the transports belong to the running application.

use vstd::prelude::*;
use std::path::PathBuf;
use crate::text::{push_str, string_from_chars, string_of, trim_chars, trim_seq};

verus! {

/// A command sent over IPC.
#[derive(Debug, Clone, PartialEq)]
pub enum IpcCommand {
    Init { config_path: Option<String> },
    Shutdown,
    GetStatus,
    Ping,
    ListDevices,
    SelectDevice { device_id: String },
    GetDeviceCapabilities,
    DisconnectDevice,
    StartCapture,
    StopCapture,
    PauseCapture,
    ResumeCapture,
    SetResolution { width: u32, height: u32 },
    SetFps { fps: u32 },
    SetPixelFormat { format: String },
    SetRoi { x: u32, y: u32, width: u32, height: u32 },
    ClearRoi,
    GetControl { control: String },
    SetControl { control: String, value: i64 },
    ResetControl { control: String },
    ListControls,
    LoadProfile { name: String },
    SaveProfile { name: String },
    Subscribe,
    Unsubscribe { subscriber_id: u64 },
    GetStreamStats,
    /// The newest captured frame, prepared for a vision model: downscaled to
    /// at most `max_width` (`None` for the default, `Some(0)` for none) at JPEG
    /// `quality`.
    GetFrame { max_width: Option<u32>, quality: Option<u8> },
    ReloadConfig,
    GetConfig,
    UpdateConfig { section: String, json: String },
    /// Diagnostics: count one pipeline rebase.
    ForceRebase,
    /// Bring the window to the foreground.
    ShowUi,
}

#[derive(Debug, Clone, PartialEq)]
pub struct DeviceEntry {
    pub id: String,
    pub name: String,
    pub vendor: String,
    pub resolutions: Vec<String>,
}

#[derive(Debug, Clone, PartialEq)]
pub struct ControlEntry {
    pub name: String,
    pub current: i64,
    pub min: i64,
    pub max: i64,
    pub step: i64,
    pub default: i64,
    pub auto_supported: bool,
}

/// The successful replies the built-in endpoints give. A `Status` reply is
/// reported with a frame rate of zero.
#[derive(Debug, Clone, PartialEq)]
pub enum Reply {
    Empty,
    Pong { uptime_ms: u64 },
    Status { capture_state: String, device_name: String, frame_count: u64, subscriber_count: usize },
    DeviceList { devices: Vec<DeviceEntry> },
    SubscriberId { id: u64 },
}

pub enum ReplyKind {
    Empty,
    Pong(u64),
    Status(Seq<char>, Seq<char>, u64, usize),
    DeviceList(nat),
    SubscriberId(u64),
}

pub open spec fn reply_kind(r: Reply) -> ReplyKind {
    match r {
        Reply::Empty => ReplyKind::Empty,
        Reply::Pong { uptime_ms } => ReplyKind::Pong(uptime_ms),
        Reply::Status { capture_state, device_name, frame_count, subscriber_count } => ReplyKind::Status(
            capture_state@,
            device_name@,
            frame_count,
            subscriber_count,
        ),
        Reply::DeviceList { devices } => ReplyKind::DeviceList(devices@.len()),
        Reply::SubscriberId { id } => ReplyKind::SubscriberId(id),
    }
}

/// The bridge's stand-in dispatcher: it answers a ping with an uptime of
/// zero, a device listing with no devices, a subscription with id 1, and
/// everything else with an empty success.
pub struct Dispatcher;

impl Dispatcher {
    pub fn new() -> (d: Dispatcher) {
        Dispatcher
    }

    pub fn reply(&mut self, cmd: &IpcCommand) -> (r: Reply)
        ensures
            reply_kind(r) == match cmd {
                IpcCommand::Ping => ReplyKind::Pong(0),
                IpcCommand::ListDevices => ReplyKind::DeviceList(0),
                IpcCommand::Subscribe => ReplyKind::SubscriberId(1),
                _ => ReplyKind::Empty,
            },
    {
        match cmd {
            IpcCommand::Ping => Reply::Pong { uptime_ms: 0 },
            IpcCommand::ListDevices => Reply::DeviceList { devices: Vec::new() },
            IpcCommand::Subscribe => Reply::SubscriberId { id: 1 },
            _ => Reply::Empty,
        }
    }
}

/// The in-process server's own answers, without a dispatcher: a ping gets the
/// clock reading `now_ms`, a status request a disconnected, idle status, and
/// everything else an empty success.
pub fn server_reply(cmd: &IpcCommand, now_ms: u64) -> (r: Reply)
    ensures
        reply_kind(r) == match cmd {
            IpcCommand::Ping => ReplyKind::Pong(now_ms),
            IpcCommand::GetStatus => ReplyKind::Status("Disconnected"@, Seq::<char>::empty(), 0, 0),
            _ => ReplyKind::Empty,
        },
{
    match cmd {
        IpcCommand::Ping => Reply::Pong { uptime_ms: now_ms },
        IpcCommand::GetStatus => Reply::Status {
            capture_state: string_of("Disconnected"),
            device_name: String::new(),
            frame_count: 0,
            subscriber_count: 0,
        },
        _ => Reply::Empty,
    }
}

// ---- the line-protocol bridge ----------------------------------------------

/// The text of a received line worth parsing: the line trimmed, unless that
/// leaves nothing.
pub fn line_payload(line: &str) -> (r: Option<String>)
    ensures
        match r {
            Some(t) => t@ == trim_seq(line@) && t@.len() > 0,
            None => trim_seq(line@).len() == 0,
        },
{
    let t = trim_chars(line);
    if t.len() == 0 {
        None
    } else {
        Some(string_from_chars(&t))
    }
}

/// What the bridge does with its synthetic capture producer once a command's
/// response has been written: a successful `StartCapture` starts it unless it
/// runs already (the first result is the new running flag, the second whether
/// to spawn it); `StopCapture` and `PauseCapture` stop it; anything else
/// leaves it.
pub fn producer_after(cmd: &IpcCommand, response_ok: bool, running: bool) -> (r: (bool, bool))
    ensures
        r == match cmd {
            IpcCommand::StartCapture => if response_ok {
                (true, !running)
            } else {
                (running, false)
            },
            IpcCommand::StopCapture | IpcCommand::PauseCapture => (false, false),
            _ => (running, false),
        },
{
    match cmd {
        IpcCommand::StartCapture => {
            if response_ok {
                (true, !running)
            } else {
                (running, false)
            }
        },
        IpcCommand::StopCapture | IpcCommand::PauseCapture => (false, false),
        _ => (running, false),
    }
}

/// The synthetic producer's `n`th frame report: sequence `n` of a 1920x1080
/// frame of 200000 bytes.
pub struct FrameCapturedFacts {
    pub sequence: u64,
    pub width: u32,
    pub height: u32,
    pub size_bytes: usize,
}

pub fn producer_frame(seq: u64) -> (f: FrameCapturedFacts)
    ensures
        f.sequence == seq,
        f.width == 1920,
        f.height == 1080,
        f.size_bytes == 200_000,
{
    FrameCapturedFacts { sequence: seq, width: 1920, height: 1080, size_bytes: 200_000 }
}

/// The producer's next sequence number (wrapping).
pub fn next_producer_seq(seq: u64) -> (n: u64)
    ensures
        n == if seq == u64::MAX {
            0
        } else {
            (seq + 1) as u64
        },
{
    if seq == u64::MAX {
        0
    } else {
        seq + 1
    }
}

/// A non-empty value, or nothing: an environment variable set to the empty
/// string counts as unset.
pub open spec fn non_empty(v: Option<String>) -> Option<Seq<char>> {
    match v {
        Some(s) => if s@.len() > 0 {
            Some(s@)
        } else {
            None
        },
        None => None,
    }
}

/// The socket path: the explicit one (`IRIS_IPC_SOCKET`), else
/// `iris-stream.sock` in the runtime directory (`XDG_RUNTIME_DIR`), else in
/// `/tmp`. Joining adds a `/` unless the directory ends in one.
pub open spec fn spec_socket_path(explicit: Option<String>, runtime_dir: Option<String>) -> Seq<char> {
    match non_empty(explicit) {
        Some(p) => p,
        None => {
            let dir = match non_empty(runtime_dir) {
                Some(d) => d,
                None => "/tmp"@,
            };
            if dir.len() > 0 && dir.last() == '/' {
                dir + "iris-stream.sock"@
            } else {
                dir + "/iris-stream.sock"@
            }
        },
    }
}

/// The socket path as text; see `spec_socket_path`.
pub fn socket_path_text(explicit: Option<String>, runtime_dir: Option<String>) -> (p: String)
    ensures
        p@ == spec_socket_path(explicit, runtime_dir),
{
    proof {
        reveal_strlit("/tmp");
    }
    match explicit {
        Some(p) => {
            if p.as_str().unicode_len() > 0 {
                return p;
            }
        },
        None => {},
    }
    let mut dir = match runtime_dir {
        Some(d) => {
            if d.as_str().unicode_len() > 0 {
                d
            } else {
                string_of("/tmp")
            }
        },
        None => string_of("/tmp"),
    };
    let n = dir.as_str().unicode_len();
    if n > 0 && dir.as_str().get_char(n - 1) == '/' {
        push_str(&mut dir, "iris-stream.sock");
    } else {
        push_str(&mut dir, "/iris-stream.sock");
    }
    dir
}

/// The path `PathBuf::from` makes of a text.
pub uninterp spec fn path_of(s: Seq<char>) -> PathBuf;

/// `PathBuf::from(String)`: the path holding the given text, named by
/// `path_of`.
#[verifier::external_body]
fn path_from_text(s: String) -> (p: PathBuf)
    ensures
        p == path_of(s@),
{
    PathBuf::from(s)
}

/// The unix socket the bridge listens on: the path of `spec_socket_path`.
pub fn resolve_unix_socket_path(explicit: Option<String>, runtime_dir: Option<String>) -> (p: PathBuf)
    ensures
        p == path_of(spec_socket_path(explicit, runtime_dir)),
{
    path_from_text(socket_path_text(explicit, runtime_dir))
}

} // verus!
