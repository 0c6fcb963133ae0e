//! MJPEG decode for the paths that need a pixel grid (preview, ROI cropping).
//!
//! The JPEG decoder itself runs in the caller, which can contain a decoder
//! panic; what is decided here is what its output means: a torn stream is
//! refused, and a decoded frame whose geometry and buffer disagree is an
//! error, never trusted.

use vstd::prelude::*;
use crate::text::{decimal, push_decimal, push_str};

verus! {

/// A decoded frame: tightly packed RGB24, `rgb24.len() == width * height * 3`.
#[derive(Debug, Clone, PartialEq, Eq)]
pub struct DecodedFrame {
    pub width: u32,
    pub height: u32,
    pub rgb24: Vec<u8>,
}

#[derive(Debug, Clone, PartialEq, Eq)]
pub enum MjpegError {
    /// The decoder rejected the byte stream.
    Decode(String),
    /// It decoded, but the reported dimensions and the buffer length disagree.
    Inconsistent(String),
}

pub enum MjpegErrorView {
    Decode(Seq<char>),
    Inconsistent(Seq<char>),
}

impl View for MjpegError {
    type V = MjpegErrorView;

    open spec fn view(&self) -> MjpegErrorView {
        match self {
            MjpegError::Decode(m) => MjpegErrorView::Decode(m@),
            MjpegError::Inconsistent(m) => MjpegErrorView::Inconsistent(m@),
        }
    }
}

impl MjpegError {
    /// The message `Display` gives for this error.
    pub fn message(&self) -> (s: String)
        ensures
            s@ == spec_mjpeg_message(self@),
    {
        let mut s = String::new();
        match self {
            MjpegError::Decode(m) => {
                push_str(&mut s, "MJPEG decode failed: ");
                push_str(&mut s, m.as_str());
            },
            MjpegError::Inconsistent(m) => {
                push_str(&mut s, "MJPEG decode inconsistent: ");
                push_str(&mut s, m.as_str());
            },
        }
        s
    }
}

pub open spec fn spec_mjpeg_message(e: MjpegErrorView) -> Seq<char> {
    match e {
        MjpegErrorView::Decode(m) => "MJPEG decode failed: "@ + m,
        MjpegErrorView::Inconsistent(m) => "MJPEG decode inconsistent: "@ + m,
    }
}

/// What the JPEG decoder, set to RGB output, gives for a byte stream: the
/// pixel buffer and the image width and height from its info block (absent
/// when it reports none), or the text of its error.
pub type DecoderOutput = Result<(Vec<u8>, Option<(u16, u16)>), String>;

/// A decoder output as plain values.
pub type DecoderOutputView = Result<(Seq<u8>, Option<(u16, u16)>), Seq<char>>;

pub open spec fn decoder_view(o: DecoderOutput) -> DecoderOutputView {
    match o {
        Ok((v, info)) => Ok((v@, info)),
        Err(m) => Err(m@),
    }
}

/// Whether the stream holds an `FF D9` (end of image) marker anywhere.
pub open spec fn has_eoi(data: Seq<u8>) -> bool {
    exists|i: int| #[trigger] eoi_at(data, i)
}

/// An `FF D9` pair starts at `i`.
pub open spec fn eoi_at(data: Seq<u8>, i: int) -> bool {
    0 <= i && i + 1 < data.len() && data[i] == 0xFF && data[i + 1] == 0xD9
}

/// The outcome of decoding one MJPEG frame `data` to RGB24, given what the
/// decoder gave for it.
pub open spec fn spec_decode_to_rgb24(data: Seq<u8>, decoded: DecoderOutputView) -> Result<(u32, u32, Seq<u8>), MjpegErrorView> {
    if !has_eoi(data) {
        Err(MjpegErrorView::Decode("no EOI marker: frame is truncated or not a JPEG"@))
    } else {
        match decoded {
            Err(m) => Err(MjpegErrorView::Decode(m)),
            Ok((rgb, None)) => Err(MjpegErrorView::Decode("decoder reported no image info"@)),
            Ok((rgb, Some((w, h)))) => {
                let expected = (w as int) * (h as int) * 3;
                if expected > usize::MAX {
                    Err(MjpegErrorView::Inconsistent(
                        decimal(w as nat) + "x"@ + decimal(h as nat) + " overflows a pixel count"@,
                    ))
                } else if rgb.len() != expected {
                    Err(MjpegErrorView::Inconsistent(
                        "decoder returned "@ + decimal(rgb.len()) + " bytes for "@ + decimal(
                            w as nat,
                        ) + "x"@ + decimal(h as nat) + " RGB24, expected "@ + decimal(
                            expected as nat,
                        ),
                    ))
                } else {
                    Ok((w as u32, h as u32, rgb))
                }
            },
        }
    }
}

fn find_eoi(data: &[u8]) -> (found: bool)
    ensures
        found == has_eoi(data@),
{
    let n = data.len();
    if n < 2 {
        assert forall|k: int| !#[trigger] eoi_at(data@, k) by {}
        return false;
    }
    let mut i: usize = 0;
    while i < n - 1
        invariant
            n == data@.len(),
            n >= 2,
            forall|k: int| 0 <= k < i ==> !#[trigger] eoi_at(data@, k),
        decreases n - i,
    {
        if data[i] == 0xFF && data[i + 1] == 0xD9 {
            assert(eoi_at(data@, i as int));
            return true;
        }
        i = i + 1;
    }
    assert forall|k: int| !#[trigger] eoi_at(data@, k) by {
        if 0 <= k && k < i {
        }
    }
    false
}

/// Decode one MJPEG/JPEG frame to tightly packed RGB24, given `decoded`,
/// what the JPEG decoder gave for `data`.
///
/// A stream without an end-of-image marker is refused whatever the decoder
/// said: the decoder returns a partially filled frame for a torn one.
pub fn decode_to_rgb24(data: &[u8], decoded: DecoderOutput) -> (res: Result<DecodedFrame, MjpegError>)
    ensures
        match res {
            Ok(f) => spec_decode_to_rgb24(data@, decoder_view(decoded)) == Ok::<
                (u32, u32, Seq<u8>),
                MjpegErrorView,
            >((f.width, f.height, f.rgb24@)),
            Err(e) => spec_decode_to_rgb24(data@, decoder_view(decoded)) == Err::<
                (u32, u32, Seq<u8>),
                MjpegErrorView,
            >(e@),
        },
{
    if !find_eoi(data) {
        return Err(MjpegError::Decode(String::from_str("no EOI marker: frame is truncated or not a JPEG")));
    }
    match decoded {
        Err(m) => Err(MjpegError::Decode(m)),
        Ok((rgb24, None)) => Err(MjpegError::Decode(String::from_str("decoder reported no image info"))),
        Ok((rgb24, Some((w, h)))) => {
            let width: u32 = w as u32;
            let height: u32 = h as u32;
            assert((w as u64) * (h as u64) <= 65535 * 65535) by (nonlinear_arith)
                requires
                    w <= 65535,
                    h <= 65535,
            ;
            let expected64: u64 = (w as u64) * (h as u64) * 3;
            if expected64 > usize::MAX as u64 {
                let mut msg = String::new();
                push_decimal(&mut msg, width as u64);
                push_str(&mut msg, "x");
                push_decimal(&mut msg, height as u64);
                push_str(&mut msg, " overflows a pixel count");
                return Err(MjpegError::Inconsistent(msg));
            }
            let expected: usize = expected64 as usize;
            if rgb24.len() != expected {
                let mut msg = String::new();
                push_str(&mut msg, "decoder returned ");
                push_decimal(&mut msg, rgb24.len() as u64);
                push_str(&mut msg, " bytes for ");
                push_decimal(&mut msg, width as u64);
                push_str(&mut msg, "x");
                push_decimal(&mut msg, height as u64);
                push_str(&mut msg, " RGB24, expected ");
                push_decimal(&mut msg, expected as u64);
                Err(MjpegError::Inconsistent(msg))
            } else {
                Ok(DecodedFrame { width, height, rgb24 })
            }
        },
    }
}

/// Convert tightly packed RGB24 to RGBA8 with a fully opaque alpha channel.
pub fn rgb24_to_rgba8(rgb24: &[u8]) -> (out: Vec<u8>)
    ensures
        out@.len() == (rgb24@.len() / 3) * 4,
        forall|p: int, c: int|
            0 <= p < rgb24@.len() / 3 && 0 <= c < 3 ==> #[trigger] out@[4 * p + c] == rgb24@[3 * p + c],
        forall|p: int| 0 <= p < rgb24@.len() / 3 ==> #[trigger] out@[4 * p + 3] == 0xFF,
{
    let n = rgb24.len() / 3;
    let mut out: Vec<u8> = Vec::new();
    let mut p: usize = 0;
    let mut base: usize = 0;
    while p < n
        invariant
            n == rgb24@.len() / 3,
            p <= n,
            base == 3 * p,
            out@.len() == 4 * p,
            forall|q: int, c: int|
                0 <= q < p && 0 <= c < 3 ==> #[trigger] out@[4 * q + c] == rgb24@[3 * q + c],
            forall|q: int| 0 <= q < p ==> #[trigger] out@[4 * q + 3] == 0xFF,
        decreases n - p,
    {
        assert(3 * p + 2 < rgb24@.len()) by (nonlinear_arith)
            requires
                p < n,
                n == rgb24@.len() / 3,
        ;
        out.push(rgb24[base]);
        out.push(rgb24[base + 1]);
        out.push(rgb24[base + 2]);
        out.push(0xFF);
        p = p + 1;
        base = base + 3;
    }
    out
}

} // verus!
