//! Camera devices, the formats they deliver and the controls they expose.

use vstd::prelude::*;
use crate::text::{ascii_lower_seq, chars_of, chars_eq_str, char_to_ascii_lower};

verus! {

/// A device identifier: a V4L2 node path or a Media Foundation symbolic link.
#[derive(Debug, Clone, PartialEq, Eq, Hash)]
pub struct DeviceId(pub String);

#[derive(Debug, Clone)]
pub struct DeviceInfo {
    pub id: DeviceId,
    pub name: String,
}

#[derive(Debug, Clone, Copy, PartialEq, Eq, Structural)]
pub struct FormatDescriptor {
    pub width: u32,
    pub height: u32,
    pub fps: u32,
    pub pixel_format: PixelFormat,
}

/// Pixel layout of a frame buffer.
#[derive(Debug, Clone, Copy, PartialEq, Eq, Structural)]
pub enum PixelFormat {
    Rgb24,
    Bgr24,
    Nv12,
    Yuyv,
    /// Motion-JPEG: a compressed stream, one JPEG image per frame. It has no
    /// pixel grid until decoded, so it must never be cropped or indexed.
    Mjpeg,
}

/// The format a configuration name selects, compared after ASCII lowercasing.
pub open spec fn spec_from_config_name(name: Seq<char>) -> Option<PixelFormat> {
    let n = ascii_lower_seq(name);
    if n == "rgb24"@ {
        Some(PixelFormat::Rgb24)
    } else if n == "bgr24"@ {
        Some(PixelFormat::Bgr24)
    } else if n == "nv12"@ {
        Some(PixelFormat::Nv12)
    } else if n == "yuyv"@ || n == "yuy2"@ {
        Some(PixelFormat::Yuyv)
    } else if n == "mjpeg"@ || n == "mjpg"@ {
        Some(PixelFormat::Mjpeg)
    } else {
        None
    }
}

pub open spec fn spec_config_name(f: PixelFormat) -> Seq<char> {
    match f {
        PixelFormat::Rgb24 => "rgb24"@,
        PixelFormat::Bgr24 => "bgr24"@,
        PixelFormat::Nv12 => "nv12"@,
        PixelFormat::Yuyv => "yuyv"@,
        PixelFormat::Mjpeg => "mjpeg"@,
    }
}

pub open spec fn spec_display_name(f: PixelFormat) -> Seq<char> {
    match f {
        PixelFormat::Rgb24 => "RGB24"@,
        PixelFormat::Bgr24 => "BGR24"@,
        PixelFormat::Nv12 => "NV12"@,
        PixelFormat::Yuyv => "YUYV"@,
        PixelFormat::Mjpeg => "MJPEG"@,
    }
}

/// The variant's own name, as `{:?}` prints it.
pub open spec fn spec_debug_name(f: PixelFormat) -> Seq<char> {
    match f {
        PixelFormat::Rgb24 => "Rgb24"@,
        PixelFormat::Bgr24 => "Bgr24"@,
        PixelFormat::Nv12 => "Nv12"@,
        PixelFormat::Yuyv => "Yuyv"@,
        PixelFormat::Mjpeg => "Mjpeg"@,
    }
}

impl PixelFormat {
    /// True for raw pixel data that can be cropped or indexed directly.
    pub fn is_raw(&self) -> (b: bool)
        ensures
            b == !(*self is Mjpeg),
    {
        match self {
            PixelFormat::Mjpeg => false,
            _ => true,
        }
    }

    /// Parse the `capture.pixel_format` configuration string. Case-insensitive
    /// (ASCII); `yuy2` is the Windows spelling of `yuyv`, `mjpg` of `mjpeg`.
    pub fn from_config_name(name: &str) -> (r: Option<PixelFormat>)
        ensures
            r == spec_from_config_name(name@),
    {
        let raw = chars_of(name);
        let mut lower: Vec<char> = Vec::new();
        let mut i: usize = 0;
        while i < raw.len()
            invariant
                i <= raw@.len(),
                lower@ == ascii_lower_seq(raw@.subrange(0, i as int)),
            decreases raw@.len() - i,
        {
            lower.push(char_to_ascii_lower(raw[i]));
            i = i + 1;
            assert(lower@ =~= ascii_lower_seq(raw@.subrange(0, i as int)));
        }
        assert(raw@.subrange(0, raw@.len() as int) =~= raw@);
        if chars_eq_str(&lower, "rgb24") {
            Some(PixelFormat::Rgb24)
        } else if chars_eq_str(&lower, "bgr24") {
            Some(PixelFormat::Bgr24)
        } else if chars_eq_str(&lower, "nv12") {
            Some(PixelFormat::Nv12)
        } else if chars_eq_str(&lower, "yuyv") || chars_eq_str(&lower, "yuy2") {
            Some(PixelFormat::Yuyv)
        } else if chars_eq_str(&lower, "mjpeg") || chars_eq_str(&lower, "mjpg") {
            Some(PixelFormat::Mjpeg)
        } else {
            None
        }
    }

    /// The canonical configuration spelling of this format.
    pub fn config_name(&self) -> (s: &'static str)
        ensures
            s@ == spec_config_name(*self),
    {
        match self {
            PixelFormat::Rgb24 => "rgb24",
            PixelFormat::Bgr24 => "bgr24",
            PixelFormat::Nv12 => "nv12",
            PixelFormat::Yuyv => "yuyv",
            PixelFormat::Mjpeg => "mjpeg",
        }
    }

    /// The variant's name as `{:?}` prints it (`Nv12`, `Mjpeg`, ...).
    pub fn debug_name(&self) -> (s: &'static str)
        ensures
            s@ == spec_debug_name(*self),
    {
        match self {
            PixelFormat::Rgb24 => "Rgb24",
            PixelFormat::Bgr24 => "Bgr24",
            PixelFormat::Nv12 => "Nv12",
            PixelFormat::Yuyv => "Yuyv",
            PixelFormat::Mjpeg => "Mjpeg",
        }
    }

    /// The display spelling used in telemetry and logs (`RGB24`, `MJPEG`, ...).
    pub fn display_name(&self) -> (s: &'static str)
        ensures
            s@ == spec_display_name(*self),
    {
        match self {
            PixelFormat::Rgb24 => "RGB24",
            PixelFormat::Bgr24 => "BGR24",
            PixelFormat::Nv12 => "NV12",
            PixelFormat::Yuyv => "YUYV",
            PixelFormat::Mjpeg => "MJPEG",
        }
    }
}

/// Every format a device reports it can deliver.
#[derive(Debug, Clone)]
pub struct DeviceCapabilities {
    pub formats: Vec<FormatDescriptor>,
}

/// One control as the driver reports it: platform id, name and range.
#[derive(Debug, Clone)]
pub struct ControlCapabilityInfo {
    pub id: u32,
    pub name: String,
    pub min: i64,
    pub max: i64,
    pub step: i64,
    pub default: i64,
}

pub struct ControlInfoView {
    pub id: u32,
    pub name: Seq<char>,
    pub min: i64,
    pub max: i64,
    pub step: i64,
    pub default: i64,
}

impl View for ControlCapabilityInfo {
    type V = ControlInfoView;

    open spec fn view(&self) -> ControlInfoView {
        ControlInfoView {
            id: self.id,
            name: self.name@,
            min: self.min,
            max: self.max,
            step: self.step,
            default: self.default,
        }
    }
}

} // verus!
