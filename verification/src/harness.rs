//! Test inputs for downstream consumers: the ffmpeg invocation that makes a
//! short MPEG-TS stream, and the fixed telemetry records of the golden file.
//! Running ffmpeg and writing files belong to the application.

use vstd::prelude::*;
use crate::text::{decimal, push_decimal, push_str, string_of};

verus! {

/// The ffmpeg arguments (before the output path) for a `seconds`-long
/// 640x480 30 fps test pattern encoded as MPEG-2 in MPEG-TS.
pub fn ffmpeg_args(seconds: u32) -> (v: Vec<String>)
    ensures
        v@.len() == 9,
        v@[0]@ == "-y"@,
        v@[1]@ == "-f"@,
        v@[2]@ == "lavfi"@,
        v@[3]@ == "-i"@,
        v@[4]@ == "testsrc=duration="@ + decimal(seconds as nat) + ":size=640x480:rate=30"@,
        v@[5]@ == "-c:v"@,
        v@[6]@ == "mpeg2video"@,
        v@[7]@ == "-f"@,
        v@[8]@ == "mpegts"@,
{
    let mut v: Vec<String> = Vec::new();
    v.push(string_of("-y"));
    v.push(string_of("-f"));
    v.push(string_of("lavfi"));
    v.push(string_of("-i"));
    let mut src = string_of("testsrc=duration=");
    push_decimal(&mut src, seconds as u64);
    push_str(&mut src, ":size=640x480:rate=30");
    v.push(src);
    v.push(string_of("-c:v"));
    v.push(string_of("mpeg2video"));
    v.push(string_of("-f"));
    v.push(string_of("mpegts"));
    v
}

/// One record of the deterministic telemetry file.
#[derive(Debug, Clone, Copy, PartialEq, Eq)]
pub struct GoldenRecord {
    /// Seconds since the Unix epoch.
    pub timestamp_secs: i64,
    pub sequence: u64,
    pub frame_sequence: u64,
    pub width: u32,
    pub height: u32,
    pub size_bytes: usize,
}

/// How many records the deterministic file holds.
pub const GOLDEN_RECORDS: u64 = 30;

/// Record `seq`: stamped one second apart from 1 700 000 000, reporting frame
/// `seq + 1`, a 1920x1080 NV12 frame (3 110 400 bytes).
pub fn golden_record(seq: u64) -> (r: GoldenRecord)
    requires
        seq < GOLDEN_RECORDS,
    ensures
        r.timestamp_secs == 1_700_000_000 + seq,
        r.sequence == seq,
        r.frame_sequence == seq + 1,
        r.width == 1920,
        r.height == 1080,
        r.size_bytes == 3_110_400,
{
    GoldenRecord {
        timestamp_secs: 1_700_000_000 + seq as i64,
        sequence: seq,
        frame_sequence: seq + 1,
        width: 1920,
        height: 1080,
        size_bytes: 3_110_400,
    }
}

} // verus!
