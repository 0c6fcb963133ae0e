//! Frame and packet types shared across the workspace: encoded video packets,
//! and the frames of the screen-capture path, whose formats are raw only.

use vstd::prelude::*;

verus! {

/// An encoded video packet (H.264 and the like).
#[derive(Debug, Clone)]
pub struct EncodedPacket {
    /// Raw encoded bytes (NAL units or container fragments).
    pub data: Vec<u8>,
    /// Presentation timestamp, in stream timescale units.
    pub pts: i64,
    /// Decoding timestamp.
    pub dts: i64,
    /// Whether the packet holds a keyframe.
    pub keyframe: bool,
    /// Codec identifier (`h264`, ...).
    pub codec: String,
}

/// Pixel layout of a screen frame.
#[derive(Debug, Clone, Copy, PartialEq, Eq, Structural)]
pub enum PixelFormat {
    Rgb24,
    Bgr24,
    Nv12,
    Yuyv,
}

/// A single captured screen frame.
#[derive(Debug, Clone)]
pub struct CaptureFrame {
    pub sequence: u64,
    pub width: u32,
    pub height: u32,
    pub format: PixelFormat,
    pub data: Vec<u8>,
    pub timestamp_us: u64,
    pub is_cropped: bool,
}

pub open spec fn spec_expected_size(width: int, height: int, format: PixelFormat) -> int {
    let pixels = width * height;
    match format {
        PixelFormat::Rgb24 | PixelFormat::Bgr24 => pixels * 3,
        PixelFormat::Nv12 => pixels * 3 / 2,
        PixelFormat::Yuyv => pixels * 2,
    }
}

impl CaptureFrame {
    pub fn size_bytes(&self) -> (n: usize)
        ensures
            n == self.data@.len(),
    {
        self.data.len()
    }

    /// Bytes a frame of `format` occupies at `width` x `height`.
    pub fn expected_size(width: u32, height: u32, format: PixelFormat) -> (n: usize)
        requires
            width * height <= u32::MAX,
            width * height * 3 <= usize::MAX,
        ensures
            n == spec_expected_size(width as int, height as int, format),
    {
        let pixels: usize = (width * height) as usize;
        match format {
            PixelFormat::Rgb24 | PixelFormat::Bgr24 => pixels * 3,
            PixelFormat::Nv12 => pixels * 3 / 2,
            PixelFormat::Yuyv => pixels * 2,
        }
    }

    /// Microseconds since the Unix epoch by the system clock (0 if the clock
    /// is before the epoch). Nothing is stated of the value: it is the time.
    #[verifier::external_body]
    pub fn now_us() -> u64 {
        std::time::SystemTime::now()
            .duration_since(std::time::UNIX_EPOCH)
            .unwrap_or_default()
            .as_micros() as u64
    }
}

} // verus!
