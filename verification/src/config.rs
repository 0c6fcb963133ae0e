//! The application's configuration (`iris.toml`) and the checks applied to it
//! at startup.
//!
//! `ui.preview_scale` is a floating-point setting; it lives with the
//! serialised form of the configuration, and its range check arrives here as
//! a verdict.

use vstd::prelude::*;
use crate::error::{IrisError, IrisErrorView};
use crate::device::{spec_config_name, spec_from_config_name, PixelFormat};
use crate::text::{str_eq, string_of};

verus! {

#[derive(Debug, Clone, PartialEq)]
pub struct IrisConfig {
    pub device: DeviceConfig,
    pub capture: CaptureConfig,
    pub controls: ControlsConfig,
    pub stream: StreamConfig,
    pub telemetry: TelemetryConfig,
    pub ui: UiConfig,
    pub logging: LoggingConfig,
}

#[derive(Debug, Clone, PartialEq)]
pub struct DeviceConfig {
    pub preferred_device: String,
    pub auto_reconnect: bool,
    pub max_reconnect_attempts: u32,
    pub reconnect_delay_ms: u64,
}

#[derive(Debug, Clone, PartialEq)]
pub struct CaptureConfig {
    pub width: u32,
    pub height: u32,
    pub target_fps: u32,
    pub pixel_format: String,
    pub max_queue_depth: usize,
    pub drop_policy: String,
}

#[derive(Debug, Clone, PartialEq)]
pub struct ControlsConfig {
    pub auto_exposure: bool,
    pub auto_focus: bool,
    pub auto_white_balance: bool,
    pub default_profile: String,
}

#[derive(Debug, Clone, PartialEq)]
pub struct StreamConfig {
    pub default_mode: String,
    pub ring_buffer_capacity: usize,
    pub max_subscribers: usize,
    pub ipc_pipe_name: String,
}

#[derive(Debug, Clone, PartialEq)]
pub struct TelemetryConfig {
    pub enabled: bool,
    pub output_mode: String,
    pub file_path: String,
    pub max_events_per_second: u32,
}

/// The window settings, but for the preview scale (see the module note).
#[derive(Debug, Clone, PartialEq)]
pub struct UiConfig {
    pub show_on_start: bool,
    pub show_telemetry_panel: bool,
    pub show_diagnostics_panel: bool,
}

#[derive(Debug, Clone, PartialEq)]
pub struct LoggingConfig {
    pub level: String,
    pub log_to_file: bool,
    pub log_dir: String,
}

impl Default for DeviceConfig {
    fn default() -> (c: DeviceConfig)
        ensures
            c.preferred_device@ == Seq::<char>::empty(),
            c.auto_reconnect,
            c.max_reconnect_attempts == 5,
            c.reconnect_delay_ms == 2000,
    {
        DeviceConfig {
            preferred_device: String::new(),
            auto_reconnect: true,
            max_reconnect_attempts: 5,
            reconnect_delay_ms: 2000,
        }
    }
}

impl Default for CaptureConfig {
    fn default() -> (c: CaptureConfig)
        ensures
            c.width == 3840,
            c.height == 2160,
            c.target_fps == 30,
            c.pixel_format@ == "nv12"@,
            c.max_queue_depth == 4,
            c.drop_policy@ == "oldest"@,
    {
        CaptureConfig {
            width: 3840,
            height: 2160,
            target_fps: 30,
            pixel_format: string_of("nv12"),
            max_queue_depth: 4,
            drop_policy: string_of("oldest"),
        }
    }
}

impl Default for ControlsConfig {
    fn default() -> (c: ControlsConfig)
        ensures
            c.auto_exposure,
            c.auto_focus,
            c.auto_white_balance,
            c.default_profile@ == Seq::<char>::empty(),
    {
        ControlsConfig {
            auto_exposure: true,
            auto_focus: true,
            auto_white_balance: true,
            default_profile: String::new(),
        }
    }
}

impl Default for StreamConfig {
    fn default() -> (c: StreamConfig)
        ensures
            c.default_mode@ == "pull"@,
            c.ring_buffer_capacity == 8,
            c.max_subscribers == 4,
            c.ipc_pipe_name@ == "\\\\.\\pipe\\iris-stream"@,
    {
        StreamConfig {
            default_mode: string_of("pull"),
            ring_buffer_capacity: 8,
            max_subscribers: 4,
            ipc_pipe_name: string_of("\\\\.\\pipe\\iris-stream"),
        }
    }
}

impl Default for TelemetryConfig {
    fn default() -> (c: TelemetryConfig)
        ensures
            c.enabled,
            c.output_mode@ == "ipc"@,
            c.file_path@ == "logs/telemetry.jsonl"@,
            c.max_events_per_second == 120,
    {
        TelemetryConfig {
            enabled: true,
            output_mode: string_of("ipc"),
            file_path: string_of("logs/telemetry.jsonl"),
            max_events_per_second: 120,
        }
    }
}

impl Default for UiConfig {
    fn default() -> (c: UiConfig)
        ensures
            c.show_on_start,
            c.show_telemetry_panel,
            !c.show_diagnostics_panel,
    {
        UiConfig { show_on_start: true, show_telemetry_panel: true, show_diagnostics_panel: false }
    }
}

impl Default for LoggingConfig {
    fn default() -> (c: LoggingConfig)
        ensures
            c.level@ == "info"@,
            c.log_to_file,
            c.log_dir@ == "logs"@,
    {
        LoggingConfig {
            level: string_of("info"),
            log_to_file: true,
            log_dir: string_of("logs"),
        }
    }
}

/// The built-in configuration.
pub open spec fn is_default_config(c: IrisConfig) -> bool {
    &&& c.device.preferred_device@ == Seq::<char>::empty()
    &&& c.device.auto_reconnect
    &&& c.device.max_reconnect_attempts == 5
    &&& c.device.reconnect_delay_ms == 2000
    &&& c.capture.width == 3840
    &&& c.capture.height == 2160
    &&& c.capture.target_fps == 30
    &&& c.capture.pixel_format@ == "nv12"@
    &&& c.capture.max_queue_depth == 4
    &&& c.capture.drop_policy@ == "oldest"@
    &&& c.controls.auto_exposure && c.controls.auto_focus && c.controls.auto_white_balance
    &&& c.controls.default_profile@ == Seq::<char>::empty()
    &&& c.stream.default_mode@ == "pull"@
    &&& c.stream.ring_buffer_capacity == 8
    &&& c.stream.max_subscribers == 4
    &&& c.stream.ipc_pipe_name@ == "\\\\.\\pipe\\iris-stream"@
    &&& c.telemetry.enabled
    &&& c.telemetry.output_mode@ == "ipc"@
    &&& c.telemetry.file_path@ == "logs/telemetry.jsonl"@
    &&& c.telemetry.max_events_per_second == 120
    &&& c.ui.show_on_start && c.ui.show_telemetry_panel && !c.ui.show_diagnostics_panel
    &&& c.logging.level@ == "info"@
    &&& c.logging.log_to_file
    &&& c.logging.log_dir@ == "logs"@
}

impl Default for IrisConfig {
    fn default() -> (c: IrisConfig)
        ensures
            is_default_config(c),
    {
        IrisConfig {
            device: DeviceConfig::default(),
            capture: CaptureConfig::default(),
            controls: ControlsConfig::default(),
            stream: StreamConfig::default(),
            telemetry: TelemetryConfig::default(),
            ui: UiConfig::default(),
            logging: LoggingConfig::default(),
        }
    }
}

/// The `capture.pixel_format` names the configuration accepts: each canonical
/// name plus `yuy2`, the Windows spelling of `yuyv`. Every one of them parses.
pub const ALLOWED_PIXEL_FORMATS: [&'static str; 6] = ["rgb24", "bgr24", "nv12", "yuyv", "yuy2", "mjpeg"];

pub open spec fn allowed_pixel_format(s: Seq<char>) -> bool {
    s == "rgb24"@ || s == "bgr24"@ || s == "nv12"@ || s == "yuyv"@ || s == "yuy2"@ || s == "mjpeg"@
}

pub open spec fn log_level_known(s: Seq<char>) -> bool {
    s == "trace"@ || s == "debug"@ || s == "info"@ || s == "warn"@ || s == "error"@
}

/// The first check a configuration fails, in the order they are applied.
/// `preview_scale_ok` is whether `ui.preview_scale` lies in `(0, 2]`.
pub open spec fn spec_validate(c: IrisConfig, preview_scale_ok: bool) -> Result<(), IrisErrorView> {
    if !(1 <= c.capture.width <= 7680) {
        Err(IrisErrorView::Config("width out of range"@))
    } else if !(1 <= c.capture.height <= 4320) {
        Err(IrisErrorView::Config("height out of range"@))
    } else if !(1 <= c.capture.target_fps <= 240) {
        Err(IrisErrorView::Config("target_fps out of range"@))
    } else if !allowed_pixel_format(c.capture.pixel_format@) {
        Err(IrisErrorView::Config("pixel_format invalid"@))
    } else if c.capture.max_queue_depth < 1 {
        Err(IrisErrorView::Config("max_queue_depth must be >= 1"@))
    } else if !(c.capture.drop_policy@ == "oldest"@ || c.capture.drop_policy@ == "newest"@) {
        Err(IrisErrorView::Config("drop_policy must be 'oldest' or 'newest'"@))
    } else if c.stream.ring_buffer_capacity < 2 {
        Err(IrisErrorView::Config("ring_buffer_capacity must be >= 2"@))
    } else if c.stream.max_subscribers < 1 {
        Err(IrisErrorView::Config("max_subscribers must be >= 1"@))
    } else if !preview_scale_ok {
        Err(IrisErrorView::Config("preview_scale out of range"@))
    } else if !log_level_known(c.logging.level@) {
        Err(IrisErrorView::Config("logging.level invalid"@))
    } else {
        Ok(())
    }
}

fn is_allowed_pixel_format(s: &str) -> (b: bool)
    ensures
        b == allowed_pixel_format(s@),
{
    str_eq(s, "rgb24") || str_eq(s, "bgr24") || str_eq(s, "nv12") || str_eq(s, "yuyv") || str_eq(
        s,
        "yuy2",
    ) || str_eq(s, "mjpeg")
}

fn config_err(msg: &str) -> (e: IrisError)
    ensures
        e@ == IrisErrorView::Config(msg@),
{
    IrisError::Config(string_of(msg))
}

impl IrisConfig {
    /// The checks applied at startup, first failure reported.
    pub fn validate(&self, preview_scale_ok: bool) -> (r: Result<(), IrisError>)
        ensures
            match r {
                Ok(()) => spec_validate(*self, preview_scale_ok) == Ok::<(), IrisErrorView>(()),
                Err(e) => spec_validate(*self, preview_scale_ok) == Err::<(), IrisErrorView>(e@),
            },
    {
        let c = &self.capture;
        if !(1 <= c.width && c.width <= 7680) {
            return Err(config_err("width out of range"));
        }
        if !(1 <= c.height && c.height <= 4320) {
            return Err(config_err("height out of range"));
        }
        if !(1 <= c.target_fps && c.target_fps <= 240) {
            return Err(config_err("target_fps out of range"));
        }
        if !is_allowed_pixel_format(c.pixel_format.as_str()) {
            return Err(config_err("pixel_format invalid"));
        }
        if c.max_queue_depth < 1 {
            return Err(config_err("max_queue_depth must be >= 1"));
        }
        if !(str_eq(c.drop_policy.as_str(), "oldest") || str_eq(c.drop_policy.as_str(), "newest")) {
            return Err(config_err("drop_policy must be 'oldest' or 'newest'"));
        }
        if self.stream.ring_buffer_capacity < 2 {
            return Err(config_err("ring_buffer_capacity must be >= 2"));
        }
        if self.stream.max_subscribers < 1 {
            return Err(config_err("max_subscribers must be >= 1"));
        }
        if !preview_scale_ok {
            return Err(config_err("preview_scale out of range"));
        }
        let l = self.logging.level.as_str();
        if !(str_eq(l, "trace") || str_eq(l, "debug") || str_eq(l, "info") || str_eq(l, "warn")
            || str_eq(l, "error")) {
            return Err(config_err("logging.level invalid"));
        }
        Ok(())
    }
}

/// The built-in configuration passes every startup check.
pub proof fn lemma_default_config_is_valid(c: IrisConfig)
    requires
        is_default_config(c),
    ensures
        spec_validate(c, true) == Ok::<(), IrisErrorView>(()),
{
    reveal_strlit("nv12");
    reveal_strlit("rgb24");
    reveal_strlit("bgr24");
    reveal_strlit("oldest");
    reveal_strlit("info");
    reveal_strlit("trace");
    reveal_strlit("debug");
}

/// Every name the configuration accepts parses to a pixel format, so a
/// configuration that passes validation is never discarded later.
pub proof fn lemma_allowed_formats_parse(s: Seq<char>)
    requires
        allowed_pixel_format(s),
    ensures
        spec_from_config_name(s) is Some,
{
    reveal_strlit("rgb24");
    reveal_strlit("bgr24");
    reveal_strlit("nv12");
    reveal_strlit("yuyv");
    reveal_strlit("yuy2");
    reveal_strlit("mjpeg");
    assert(crate::text::ascii_lower_seq(s) =~= s);
}

/// Every canonical format name is accepted by the configuration.
pub proof fn lemma_canonical_names_allowed(f: PixelFormat)
    ensures
        allowed_pixel_format(spec_config_name(f)),
{
}

} // verus!
