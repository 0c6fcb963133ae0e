//! The capture service's state and decisions: commands, the bounded frame
//! queue with its drop policy, ROI cropping on the way in, and when a failing
//! frame read is worth reporting. The running service performs the backend
//! calls, the waiting and the sending.

use vstd::prelude::*;
use std::collections::VecDeque;
use std::str::FromStr;
use crate::capture::{
    apply_roi, apply_roi_fits, roi_fits_exec, spec_apply_roi, spec_expected_size, spec_roi_valid,
    CaptureFrame, FrameView, Roi,
};
use crate::device::{spec_display_name, DeviceInfo, PixelFormat};
use crate::mjpeg::{decoder_view, DecoderOutput, DecoderOutputView};
use crate::error::{spec_hal_message, HalError, IrisError, IrisErrorView};
use crate::text::{decimal, push_decimal, push_str, str_eq, string_of};

verus! {

/// What to do with a new frame when the queue is full.
#[derive(Debug, Clone, Copy, PartialEq, Eq, Structural)]
pub enum DropPolicy {
    /// Evict the oldest queued frame and queue the new one.
    Oldest,
    /// Drop the new frame.
    Newest,
}

impl DropPolicy {
    /// `oldest` or `newest`, exactly.
    pub fn parse(s: &str) -> (r: Option<DropPolicy>)
        ensures
            r == (if s@ == "oldest"@ {
                Some(DropPolicy::Oldest)
            } else if s@ == "newest"@ {
                Some(DropPolicy::Newest)
            } else {
                None
            }),
    {
        if str_eq(s, "oldest") {
            Some(DropPolicy::Oldest)
        } else if str_eq(s, "newest") {
            Some(DropPolicy::Newest)
        } else {
            None
        }
    }
}

impl FromStr for DropPolicy {
    type Err = ();

    fn from_str(s: &str) -> (r: Result<DropPolicy, ()>)
        ensures
            r == (if s@ == "oldest"@ {
                Ok::<DropPolicy, ()>(DropPolicy::Oldest)
            } else if s@ == "newest"@ {
                Ok::<DropPolicy, ()>(DropPolicy::Newest)
            } else {
                Err::<DropPolicy, ()>(())
            }),
    {
        match DropPolicy::parse(s) {
            Some(p) => Ok(p),
            None => Err(()),
        }
    }
}

/// What the capture path is asked to deliver.
#[derive(Debug, Clone, Copy)]
pub struct CaptureConfig {
    pub width: u32,
    pub height: u32,
    pub target_fps: u32,
    pub format: PixelFormat,
    pub max_queue_depth: usize,
    pub drop_policy: DropPolicy,
    pub roi: Option<Roi>,
}

#[derive(Debug, Clone, PartialEq, Eq)]
pub enum CaptureServiceState {
    Idle,
    Capturing,
    Paused,
    Error(String),
}

#[derive(Debug, Clone, Copy, PartialEq, Eq)]
pub enum CaptureCommand {
    Pause,
    Resume,
    Stop,
    SetRoi(Option<Roi>),
    SetFps(u32),
}

/// The per-frame facts reported for a queued frame, taken after cropping:
/// the backend may deliver another mode than was configured.
#[derive(Debug, Clone, PartialEq, Eq)]
pub struct CaptureReport {
    pub frames_captured: u64,
    pub frames_dropped: u64,
    pub target_fps: u32,
    /// `<width>x<height>`.
    pub resolution: String,
    /// The display name of the frame's format.
    pub format: String,
    pub size_bytes: usize,
    pub queue_depth: usize,
    pub roi_active: bool,
}

/// The capture service's state.
pub struct CaptureCore {
    pub config: CaptureConfig,
    pub roi: Option<Roi>,
    /// Frames waiting for the consumer, oldest first.
    pub queue: VecDeque<CaptureFrame>,
    pub frame_count: u64,
    pub drop_count: u64,
    /// Failed frame reads so far.
    pub frame_errors: u64,
    pub state: CaptureServiceState,
}

pub open spec fn frames_view(q: Seq<CaptureFrame>) -> Seq<FrameView> {
    q.map_values(|f: CaptureFrame| f@)
}

/// The frame as it is queued: cropped to the ROI when one is set and fits.
/// `jpeg` is what the JPEG decoder gave for the frame's bytes, read only when
/// an MJPEG frame is cropped.
pub open spec fn spec_incoming(f: FrameView, roi: Option<Roi>, jpeg: DecoderOutputView) -> FrameView {
    match roi {
        Some(r) => if spec_roi_valid(r, f.width as int, f.height as int) {
            spec_apply_roi(f, r, jpeg)
        } else {
            f
        },
        None => f,
    }
}

/// The ROI can be checked and applied to `f` without leaving machine range.
pub open spec fn roi_in_range(f: FrameView, roi: Option<Roi>) -> bool {
    match roi {
        Some(r) => {
            &&& r.x + r.width <= u32::MAX
            &&& r.y + r.height <= u32::MAX
            &&& spec_roi_valid(r, f.width as int, f.height as int) ==> apply_roi_fits(f, r)
        },
        None => true,
    }
}

/// A frame that `roi` crops as MJPEG: a valid region over a JPEG frame.
pub open spec fn crops_jpeg(f: FrameView, roi: Option<Roi>) -> bool {
    &&& f.format is Mjpeg
    &&& roi matches Some(r)
    &&& spec_roi_valid(r, f.width as int, f.height as int)
}

/// Whether a frame arriving under `roi` is cropped as MJPEG, so that the JPEG
/// decoder's output for its bytes is read by `CaptureCore::on_frame`.
pub fn decode_needed(frame: &CaptureFrame, roi: Option<Roi>) -> (b: bool)
    requires
        roi_in_range(frame@, roi),
    ensures
        b == crops_jpeg(frame@, roi),
{
    match roi {
        Some(r) => {
            match frame.format {
                PixelFormat::Mjpeg => r.validate(frame.width, frame.height),
                _ => false,
            }
        },
        None => false,
    }
}

/// Whether `roi_in_range` holds, for callers outside the proofs.
pub fn roi_applicable(frame: &CaptureFrame, roi: Option<Roi>) -> (b: bool)
    ensures
        b == roi_in_range(frame@, roi),
{
    match roi {
        None => true,
        Some(r) => {
            if (r.x as u64) + (r.width as u64) > u32::MAX as u64 || (r.y as u64) + (r.height as u64)
                > u32::MAX as u64 {
                return false;
            }
            if !r.validate(frame.width, frame.height) {
                return true;
            }
            match frame.format {
                PixelFormat::Mjpeg => true,
                _ => roi_fits_exec(frame.width, frame.height, r),
            }
        },
    }
}

pub open spec fn resolution_text(w: u32, h: u32) -> Seq<char> {
    decimal(w as nat) + "x"@ + decimal(h as nat)
}

/// What holds of a capture core at every point of a run that has taken `n`
/// frames from the backend: the queue within its depth, every frame counted
/// once as queued or dropped, and none dropped under the `Oldest` policy.
pub open spec fn counted_run(c: CaptureCore, n: int) -> bool {
    &&& c.config.max_queue_depth >= 1
    &&& c.queue@.len() <= c.config.max_queue_depth
    &&& c.frame_count + c.drop_count == n
    &&& c.config.drop_policy is Oldest ==> c.drop_count == 0
}

impl CaptureCore {
    pub fn new(config: CaptureConfig) -> (c: CaptureCore)
        ensures
            config.max_queue_depth >= 1 ==> counted_run(c, 0),
            c.config == config,
            c.roi == config.roi,
            c.queue@.len() == 0,
            c.frame_count == 0,
            c.drop_count == 0,
            c.frame_errors == 0,
            c.state == CaptureServiceState::Idle,
    {
        CaptureCore {
            config,
            roi: config.roi,
            queue: VecDeque::new(),
            frame_count: 0,
            drop_count: 0,
            frame_errors: 0,
            state: CaptureServiceState::Idle,
        }
    }

    /// The backend started: capturing.
    pub fn started(&mut self)
        ensures
            final(self).state == CaptureServiceState::Capturing,
            final(self).queue == old(self).queue,
            final(self).config == old(self).config,
            final(self).roi == old(self).roi,
            final(self).frame_count == old(self).frame_count,
            final(self).drop_count == old(self).drop_count,
            final(self).frame_errors == old(self).frame_errors,
            forall|n: int| #[trigger] counted_run(*old(self), n) ==> counted_run(*final(self), n),
    {
        self.state = CaptureServiceState::Capturing;
    }

    /// The backend failed to start with message `msg`.
    pub fn start_failed(&mut self, msg: &str)
        ensures
            (final(self).state matches CaptureServiceState::Error(m) && m@ == "start failed: "@ + msg@),
            final(self).queue == old(self).queue,
            final(self).config == old(self).config,
            final(self).roi == old(self).roi,
            final(self).frame_count == old(self).frame_count,
            final(self).drop_count == old(self).drop_count,
            final(self).frame_errors == old(self).frame_errors,
            forall|n: int| #[trigger] counted_run(*old(self), n) ==> counted_run(*final(self), n),
    {
        let mut m = string_of("start failed: ");
        push_str(&mut m, msg);
        self.state = CaptureServiceState::Error(m);
    }

    /// Apply a command. Returns true when the service is to stop (the caller
    /// stops the backend); `Pause` and `Resume` change the reported state,
    /// `SetRoi` and `SetFps` the settings for frames that follow.
    pub fn on_command(&mut self, cmd: CaptureCommand) -> (stop: bool)
        ensures
            stop == (cmd is Stop),
            match cmd {
                CaptureCommand::Pause => final(self).state == CaptureServiceState::Paused,
                CaptureCommand::Resume => final(self).state == CaptureServiceState::Capturing,
                CaptureCommand::Stop => final(self).state == CaptureServiceState::Idle,
                CaptureCommand::SetRoi(r) => final(self).roi == r && final(self).state == old(self).state,
                CaptureCommand::SetFps(f) => final(self).config.target_fps == f && final(self).state == old(self).state,
            },
            !(cmd is SetRoi) ==> final(self).roi == old(self).roi,
            !(cmd is SetFps) ==> final(self).config == old(self).config,
            final(self).config.max_queue_depth == old(self).config.max_queue_depth,
            final(self).config.drop_policy == old(self).config.drop_policy,
            final(self).queue == old(self).queue,
            final(self).frame_count == old(self).frame_count,
            final(self).drop_count == old(self).drop_count,
            final(self).frame_errors == old(self).frame_errors,
            forall|n: int| #[trigger] counted_run(*old(self), n) ==> counted_run(*final(self), n),
    {
        match cmd {
            CaptureCommand::Pause => {
                self.state = CaptureServiceState::Paused;
                false
            },
            CaptureCommand::Resume => {
                self.state = CaptureServiceState::Capturing;
                false
            },
            CaptureCommand::Stop => {
                self.state = CaptureServiceState::Idle;
                true
            },
            CaptureCommand::SetRoi(r) => {
                self.roi = r;
                false
            },
            CaptureCommand::SetFps(f) => {
                self.config.target_fps = f;
                false
            },
        }
    }

    /// Take in a frame from the backend: crop it to the ROI when one is set
    /// and fits, then queue it under the drop policy. When the queue is full,
    /// `Oldest` evicts the oldest frame and `Newest` drops the new one. A
    /// queued frame is counted and reported; a dropped one is counted only.
    pub fn on_frame(&mut self, frame: CaptureFrame, jpeg: DecoderOutput) -> (report: Option<CaptureReport>)
        requires
            roi_in_range(frame@, old(self).roi),
            old(self).frame_count < u64::MAX,
            old(self).drop_count < u64::MAX,
        ensures
            ({
                let f = spec_incoming(frame@, old(self).roi, decoder_view(jpeg));
                let q = frames_view(old(self).queue@);
                let full = q.len() >= old(self).config.max_queue_depth;
                let dropped = full && old(self).config.drop_policy is Newest;
                &&& frames_view(final(self).queue@) == if !full {
                    q.push(f)
                } else if dropped {
                    q
                } else if q.len() > 0 {
                    q.drop_first().push(f)
                } else {
                    q.push(f)
                }
                &&& dropped ==> report is None && final(self).drop_count == old(self).drop_count + 1 && final(self).frame_count == old(self).frame_count
                &&& !dropped ==> final(self).frame_count == old(self).frame_count + 1 && final(self).drop_count == old(self).drop_count && (report matches Some(r) && {
                    &&& r.frames_captured == final(self).frame_count
                    &&& r.frames_dropped == final(self).drop_count
                    &&& r.target_fps == old(self).config.target_fps
                    &&& r.resolution@ == resolution_text(f.width, f.height)
                    &&& r.format@ == spec_display_name(f.format)
                    &&& r.size_bytes == f.data.len()
                    &&& r.queue_depth == old(self).config.max_queue_depth
                    &&& r.roi_active == old(self).roi is Some
                })
            }),
            old(self).config.max_queue_depth >= 1 && old(self).queue@.len() <= old(self).config.max_queue_depth
                ==> final(self).queue@.len() <= old(self).config.max_queue_depth,
            forall|n: int| #[trigger] counted_run(*old(self), n) ==> counted_run(*final(self), n + 1),
            final(self).config == old(self).config,
            final(self).roi == old(self).roi,
            final(self).state == old(self).state,
            final(self).frame_errors == old(self).frame_errors,
    {
        let mut frame = frame;
        match self.roi {
            Some(r) => {
                if r.validate(frame.width, frame.height) {
                    apply_roi(&mut frame, r, jpeg);
                }
            },
            None => {},
        }
        let size = frame.data.len();
        let w = frame.width;
        let h = frame.height;
        let fmt = frame.format;
        let ghost fv = frame@;
        let ghost q = frames_view(self.queue@);
        let mut dropped = false;
        if self.queue.len() >= self.config.max_queue_depth {
            match self.config.drop_policy {
                DropPolicy::Oldest => {
                    let _evicted = self.queue.pop_front();
                    self.queue.push_back(frame);
                },
                DropPolicy::Newest => {
                    dropped = true;
                },
            }
        } else {
            self.queue.push_back(frame);
        }
        proof {
            let nq = frames_view(self.queue@);
            if !dropped {
                if q.len() >= self.config.max_queue_depth && q.len() > 0 {
                    assert(nq =~= q.drop_first().push(fv));
                } else {
                    assert(nq =~= q.push(fv));
                }
            } else {
                assert(nq =~= q);
            }
        }
        if dropped {
            self.drop_count = self.drop_count + 1;
            None
        } else {
            self.frame_count = self.frame_count + 1;
            let mut resolution = String::new();
            push_decimal(&mut resolution, w as u64);
            push_str(&mut resolution, "x");
            push_decimal(&mut resolution, h as u64);
            Some(
                CaptureReport {
                    frames_captured: self.frame_count,
                    frames_dropped: self.drop_count,
                    target_fps: self.config.target_fps,
                    resolution,
                    format: string_of(fmt.display_name()),
                    size_bytes: size,
                    queue_depth: self.config.max_queue_depth,
                    roi_active: self.roi.is_some(),
                },
            )
        }
    }

    /// Hand the oldest queued frame to the consumer.
    pub fn take_next(&mut self) -> (f: Option<CaptureFrame>)
        ensures
            old(self).queue@.len() == 0 ==> f is None && final(self).queue@ == old(self).queue@,
            old(self).queue@.len() > 0 ==> f == Some(old(self).queue@[0]) && final(self).queue@
                == old(self).queue@.drop_first(),
            final(self).config == old(self).config,
            final(self).roi == old(self).roi,
            final(self).frame_count == old(self).frame_count,
            final(self).drop_count == old(self).drop_count,
            final(self).frame_errors == old(self).frame_errors,
            final(self).state == old(self).state,
            forall|n: int| #[trigger] counted_run(*old(self), n) ==> counted_run(*final(self), n),
    {
        let f = self.queue.pop_front();
        proof {
            if old(self).queue@.len() > 0 {
                assert(self.queue@ =~= old(self).queue@.drop_first());
            }
        }
        f
    }

    /// A frame read failed with message `msg`. The state says so; whether to
    /// report it is the decision returned: the first failure, every hundredth,
    /// and any after `quiet_elapsed` (five seconds without a report). A
    /// persistent failure is then a diagnosis and a counter, not thirty lines a
    /// second.
    pub fn on_frame_error(&mut self, msg: &str, quiet_elapsed: bool) -> (report: bool)
        requires
            old(self).frame_errors < u64::MAX,
        ensures
            final(self).frame_errors == old(self).frame_errors + 1,
            report == (final(self).frame_errors == 1 || final(self).frame_errors % 100 == 0
                || quiet_elapsed),
            (final(self).state matches CaptureServiceState::Error(m) && m@ == "frame error: "@ + msg@),
            final(self).queue == old(self).queue,
            final(self).config == old(self).config,
            final(self).roi == old(self).roi,
            final(self).frame_count == old(self).frame_count,
            final(self).drop_count == old(self).drop_count,
            forall|n: int| #[trigger] counted_run(*old(self), n) ==> counted_run(*final(self), n),
    {
        self.frame_errors = self.frame_errors + 1;
        let mut m = string_of("frame error: ");
        push_str(&mut m, msg);
        self.state = CaptureServiceState::Error(m);
        self.frame_errors == 1 || self.frame_errors % 100 == 0 || quiet_elapsed
    }
}

// ---- the synthetic backend ---------------------------------------------------

/// A backend that makes frames of the configured geometry, every byte 128.
pub struct MockCaptureBackend {
    capturing: bool,
    pub sequence: u64,
    pub config: CaptureConfig,
}

pub struct MockView {
    pub capturing: bool,
    pub sequence: u64,
    pub config: CaptureConfig,
}

impl View for MockCaptureBackend {
    type V = MockView;

    closed spec fn view(&self) -> MockView {
        MockView { capturing: self.capturing, sequence: self.sequence, config: self.config }
    }
}

/// The size of a synthetic frame: the raw size of the configured geometry,
/// at least one byte (MJPEG's size is not predictable).
pub open spec fn mock_frame_size(c: CaptureConfig) -> int {
    let s = spec_expected_size(c.width as int, c.height as int, c.format);
    if s < 1 {
        1
    } else {
        s
    }
}

impl MockCaptureBackend {
    pub fn new(config: CaptureConfig) -> (b: MockCaptureBackend)
        ensures
            !b@.capturing,
            b@.sequence == 0,
            b@.config == config,
    {
        MockCaptureBackend { capturing: false, sequence: 0, config }
    }

    pub fn start(&mut self)
        ensures
            final(self)@.capturing,
            final(self)@.sequence == 0,
            final(self)@.config == old(self)@.config,
    {
        self.capturing = true;
        self.sequence = 0;
    }

    pub fn stop(&mut self)
        ensures
            !final(self)@.capturing,
            final(self)@.sequence == old(self)@.sequence,
            final(self)@.config == old(self)@.config,
    {
        self.capturing = false;
    }

    pub fn is_capturing(&self) -> (b: bool)
        ensures
            b == self@.capturing,
    {
        self.capturing
    }

    /// How long to wait between frames at the configured rate.
    pub fn frame_interval_ms(&self) -> (ms: u64)
        requires
            self@.config.target_fps > 0,
        ensures
            ms == 1000u64 / (self@.config.target_fps as u64),
    {
        1000 / (self.config.target_fps as u64)
    }

    /// The next synthetic frame, stamped `now_us`; refused when not
    /// capturing.
    pub fn next_frame_at(&mut self, now_us: u64) -> (r: Result<CaptureFrame, IrisError>)
        requires
            old(self)@.sequence < u64::MAX,
            old(self)@.config.width * old(self)@.config.height <= u32::MAX,
            old(self)@.config.width * old(self)@.config.height * 3 <= usize::MAX,
        ensures
            old(self)@.capturing <==> r is Ok,
            r matches Err(e) ==> e@ == IrisErrorView::Capture("not capturing"@) && final(self)@.sequence == old(self)@.sequence,
            r matches Ok(f) ==> {
                &&& final(self)@.sequence == old(self)@.sequence + 1
                &&& f.sequence == final(self)@.sequence
                &&& f.width == old(self)@.config.width
                &&& f.height == old(self)@.config.height
                &&& f.format == old(self)@.config.format
                &&& f.data@.len() == mock_frame_size(old(self)@.config)
                &&& forall|i: int| 0 <= i < f.data@.len() ==> #[trigger] f.data@[i] == 128
                &&& f.timestamp_us == now_us
                &&& !f.is_cropped
            },
            final(self)@.config == old(self)@.config,
            final(self)@.capturing == old(self)@.capturing,
    {
        if !self.capturing {
            return Err(IrisError::Capture(string_of("not capturing")));
        }
        self.sequence = self.sequence + 1;
        let size = CaptureFrame::expected_size(self.config.width, self.config.height, self.config.format);
        let n: usize = if size < 1 {
            1
        } else {
            size
        };
        let mut data: Vec<u8> = Vec::new();
        let mut i: usize = 0;
        while i < n
            invariant
                i <= n,
                data@.len() == i,
                forall|k: int| 0 <= k < i ==> #[trigger] data@[k] == 128,
            decreases n - i,
        {
            data.push(128);
            i = i + 1;
        }
        Ok(
            CaptureFrame {
                sequence: self.sequence,
                width: self.config.width,
                height: self.config.height,
                format: self.config.format,
                data,
                timestamp_us: now_us,
                is_cropped: false,
            },
        )
    }
}

// ---- choosing a camera -----------------------------------------------------

/// `needle` occurs in `hay`.
pub open spec fn contains_seq(hay: Seq<char>, needle: Seq<char>) -> bool {
    exists|k: int| 0 <= k <= hay.len() - needle.len() && #[trigger] hay.subrange(k, k + needle.len()) == needle
}

fn matches_at(h: &Vec<char>, n: &Vec<char>, k: usize) -> (b: bool)
    requires
        k + n@.len() <= h@.len(),
    ensures
        b == (h@.subrange(k as int, k + n@.len()) == n@),
{
    let hl = h.len();
    let mut i: usize = 0;
    while i < n.len()
        invariant
            hl == h@.len(),
            k + n@.len() <= h@.len(),
            i <= n@.len(),
            forall|j: int| 0 <= j < i ==> h@[k + j] == n@[j],
        decreases n@.len() - i,
    {
        if h[k + i] != n[i] {
            assert(h@.subrange(k as int, k + n@.len())[i as int] != n@[i as int]);
            return false;
        }
        i = i + 1;
    }
    assert(h@.subrange(k as int, k + n@.len()) =~= n@);
    true
}

fn contains_chars(hay: &str, needle: &str) -> (b: bool)
    ensures
        b == contains_seq(hay@, needle@),
{
    let h = crate::text::chars_of(hay);
    let n = crate::text::chars_of(needle);
    if n.len() > h.len() {
        proof {
            assert forall|k: int| !(0 <= k <= h@.len() - n@.len() && #[trigger] h@.subrange(k, k + n@.len()) == n@) by {}
        }
        return false;
    }
    let last = h.len() - n.len();
    let mut k: usize = 0;
    loop
        invariant
            h@ == hay@,
            n@ == needle@,
            last == h@.len() - n@.len(),
            k <= last,
            forall|j: int| 0 <= j < k ==> #[trigger] h@.subrange(j, j + n@.len()) != n@,
        decreases last - k,
    {
        if matches_at(&h, &n, k) {
            return true;
        }
        if k == last {
            assert forall|j: int| !(0 <= j <= h@.len() - n@.len() && #[trigger] h@.subrange(j, j + n@.len()) == n@) by {
                if 0 <= j && j < k {
                }
            }
            return false;
        }
        k = k + 1;
    }
}

/// The device a `wanted` string (the `IRIS_DEVICE` setting) picks: with none,
/// the first; else the first whose id equals or contains it or whose name
/// contains it, falling back to the first.
pub open spec fn device_matches(d: DeviceInfo, wanted: Seq<char>) -> bool {
    d.id.0@ == wanted || contains_seq(d.id.0@, wanted) || contains_seq(d.name@, wanted)
}

pub fn choose_device(devices: &Vec<DeviceInfo>, wanted: &str) -> (i: usize)
    requires
        devices@.len() > 0,
    ensures
        i < devices@.len(),
        wanted@.len() == 0 ==> i == 0,
        wanted@.len() > 0 && i > 0 ==> device_matches(devices@[i as int], wanted@),
        wanted@.len() > 0 ==> forall|j: int| 0 <= j < i ==> !device_matches(#[trigger] devices@[j], wanted@),
        wanted@.len() > 0 && i == 0 && !device_matches(devices@[0], wanted@) ==> forall|j: int| 0 <= j < devices@.len() ==> !device_matches(#[trigger] devices@[j], wanted@),
{
    if wanted.unicode_len() == 0 {
        return 0;
    }
    let mut i: usize = 0;
    while i < devices.len()
        invariant
            wanted@.len() > 0,
            i <= devices@.len(),
            forall|j: int| 0 <= j < i ==> !device_matches(#[trigger] devices@[j], wanted@),
        decreases devices@.len() - i,
    {
        let d = &devices[i];
        if str_eq(d.id.0.as_str(), wanted) || contains_chars(d.id.0.as_str(), wanted) || contains_chars(d.name.as_str(), wanted) {
            return i;
        }
        i = i + 1;
    }
    0
}

/// A HAL error met while capturing from a camera.
pub fn uvc_error(e: &HalError) -> (r: IrisError)
    ensures
        r@ == IrisErrorView::Capture("uvc: "@ + spec_hal_message(e@)),
{
    let mut m = string_of("uvc: ");
    let em = e.message();
    push_str(&mut m, em.as_str());
    IrisError::Capture(m)
}

} // verus!
