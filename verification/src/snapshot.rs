//! Turning a captured frame into something a vision model can eat: a JPEG,
//! downscaled, as a `data:image/jpeg;base64,...` URL.
//!
//! Downscaling is the point, not an optimisation: a vision projector works at
//! a few hundred pixels square, and a full-size frame costs encode time,
//! transfer size and tokens to reach the same tiles.

use vstd::prelude::*;
use crate::capture::{CaptureFrame, FrameView};
use crate::device::{spec_debug_name, PixelFormat};
use crate::mjpeg::{
    decode_to_rgb24, decoder_view, spec_decode_to_rgb24, spec_mjpeg_message, DecoderOutput,
    DecoderOutputView, MjpegError, MjpegErrorView,
};
use crate::text::{decimal, push_char, push_decimal, push_str};

verus! {

/// A frame prepared for a vision model.
#[derive(Debug, Clone, PartialEq, Eq)]
pub struct Snapshot {
    /// Width after downscaling.
    pub width: u32,
    /// Height after downscaling.
    pub height: u32,
    /// `image/jpeg`.
    pub mime: &'static str,
    /// Base64 of the JPEG bytes, without any prefix.
    pub base64: String,
}

impl Snapshot {
    /// The complete `data:` URL, ready for `image_url.url`.
    pub fn data_url(&self) -> (url: String)
        ensures
            url@ == "data:"@ + self.mime@ + ";base64,"@ + self.base64@,
    {
        let mut url = String::new();
        push_str(&mut url, "data:");
        push_str(&mut url, self.mime);
        push_str(&mut url, ";base64,");
        push_str(&mut url, self.base64.as_str());
        url
    }
}

// ---- base64, RFC 4648 standard alphabet with padding ----------------------

/// The character for a 6-bit value in the standard alphabet.
pub open spec fn b64_char(v: int) -> char {
    if v < 26 {
        (('A' as int) + v) as char
    } else if v < 52 {
        (('a' as int) + (v - 26)) as char
    } else if v < 62 {
        (('0' as int) + (v - 52)) as char
    } else if v == 62 {
        '+'
    } else {
        '/'
    }
}

/// Length of the encoding of `n` bytes: four characters per started group of
/// three.
pub open spec fn b64_len(n: nat) -> nat {
    ((n + 2) / 3 * 4) as nat
}

/// Byte `i` of the input, or 0 past its end (the encoder's zero padding).
pub open spec fn byte_or_zero(input: Seq<u8>, i: int) -> int {
    if i < input.len() {
        input[i] as int
    } else {
        0
    }
}

/// Character `k` of the encoding: group `k / 4` packs bytes `3g .. 3g + 3`
/// into 24 bits, and position `k % 4` takes one 6-bit slice, most significant
/// first. A slice that only covers padding bytes is written as `=`.
pub open spec fn b64_at(input: Seq<u8>, k: int) -> char {
    let g = k / 4;
    let q = k % 4;
    let n = byte_or_zero(input, 3 * g) * 65536 + byte_or_zero(input, 3 * g + 1) * 256
        + byte_or_zero(input, 3 * g + 2);
    if q == 0 {
        b64_char(n / 262144)
    } else if q == 1 {
        b64_char(n / 4096 % 64)
    } else if q == 2 {
        if 3 * g + 1 < input.len() {
            b64_char(n / 64 % 64)
        } else {
            '='
        }
    } else {
        if 3 * g + 2 < input.len() {
            b64_char(n % 64)
        } else {
            '='
        }
    }
}

/// The encoding of `input`.
pub open spec fn spec_base64(input: Seq<u8>) -> Seq<char> {
    Seq::new(b64_len(input.len()), |k: int| b64_at(input, k))
}

/// The encoding is four characters per started group of three bytes, each
/// from the standard alphabet or the `=` pad, and pads only at the end.
pub proof fn lemma_base64_shape(input: Seq<u8>)
    ensures
        spec_base64(input).len() == (input.len() + 2) / 3 * 4,
        forall|k: int|
            0 <= k < spec_base64(input).len() ==> {
                let c = #[trigger] spec_base64(input)[k];
                ||| ('A' <= c && c <= 'Z')
                ||| ('a' <= c && c <= 'z')
                ||| ('0' <= c && c <= '9')
                ||| c == '+'
                ||| c == '/'
                ||| (c == '=' && k >= spec_base64(input).len() - 2)
            },
{
    assert forall|k: int| 0 <= k < spec_base64(input).len() implies {
        let c = #[trigger] spec_base64(input)[k];
        ||| ('A' <= c && c <= 'Z')
        ||| ('a' <= c && c <= 'z')
        ||| ('0' <= c && c <= '9')
        ||| c == '+'
        ||| c == '/'
        ||| (c == '=' && k >= spec_base64(input).len() - 2)
    } by {
        let g = k / 4;
        let n = byte_or_zero(input, 3 * g) * 65536 + byte_or_zero(input, 3 * g + 1) * 256
            + byte_or_zero(input, 3 * g + 2);
        assert(0 <= n < 16777216);
        assert(0 <= n / 262144 < 64);
    }
}

/// The 6-bit value of a character of the standard alphabet (0 for the `=`
/// pad).
pub open spec fn b64_value(c: char) -> int {
    if 'A' <= c && c <= 'Z' {
        (c as int) - ('A' as int)
    } else if 'a' <= c && c <= 'z' {
        (c as int) - ('a' as int) + 26
    } else if '0' <= c && c <= '9' {
        (c as int) - ('0' as int) + 52
    } else if c == '+' {
        62
    } else if c == '/' {
        63
    } else {
        0
    }
}

/// How many `=` pads end a text: at most two.
pub open spec fn b64_pad_count(t: Seq<char>) -> int {
    if t.len() >= 1 && t[t.len() - 1] == '=' {
        if t.len() >= 2 && t[t.len() - 2] == '=' {
            2
        } else {
            1
        }
    } else {
        0
    }
}

/// The 24 bits group `g` of a text packs, four 6-bit values most
/// significant first.
pub open spec fn b64_group_value(t: Seq<char>, g: int) -> int {
    b64_value(t[4 * g]) * 262144 + b64_value(t[4 * g + 1]) * 4096 + b64_value(t[4 * g + 2]) * 64
        + b64_value(t[4 * g + 3])
}

/// Byte `i` of a decoded text: byte `i % 3` of group `i / 3`.
pub open spec fn b64_decoded_byte(t: Seq<char>, i: int) -> u8 {
    let v = b64_group_value(t, i / 3);
    let r = i % 3;
    (if r == 0 {
        v / 65536
    } else if r == 1 {
        v / 256 % 256
    } else {
        v % 256
    }) as u8
}

/// RFC 4648 decoding of a padded standard-alphabet text: three bytes per
/// group of four characters, less one per `=` pad.
pub open spec fn spec_base64_decode(t: Seq<char>) -> Seq<u8> {
    let n = t.len() / 4 * 3 - b64_pad_count(t);
    Seq::new(
        if n > 0 {
            n as nat
        } else {
            0
        },
        |i: int| b64_decoded_byte(t, i),
    )
}

proof fn lemma_char_value(v: int)
    requires
        0 <= v < 64,
    ensures
        b64_value(b64_char(v)) == v,
        b64_char(v) != '=',
{
}

proof fn lemma_group_bytes(b0: int, b1: int, b2: int)
    requires
        0 <= b0 < 256,
        0 <= b1 < 256,
        0 <= b2 < 256,
    ensures
        ({
            let m = b0 * 65536 + b1 * 256 + b2;
            &&& (m / 262144) * 262144 + (m / 4096 % 64) * 4096 + (m / 64 % 64) * 64 + m % 64 == m
            &&& m / 65536 == b0
            &&& m / 256 % 256 == b1
            &&& m % 256 == b2
            &&& 0 <= m / 262144 < 64
        }),
{
    let m = b0 * 65536 + b1 * 256 + b2;
    assert((m / 262144) * 262144 + (m / 4096 % 64) * 4096 + (m / 64 % 64) * 64 + m % 64 == m) by (nonlinear_arith)
        requires
            0 <= m < 16777216,
    ;
    assert(m / 65536 == b0 && m / 256 % 256 == b1 && m % 256 == b2) by (nonlinear_arith)
        requires
            m == b0 * 65536 + b1 * 256 + b2,
            0 <= b0 < 256,
            0 <= b1 < 256,
            0 <= b2 < 256,
    ;
}

/// Decoding an encoding gives back the input.
#[verifier::spinoff_prover]
#[verifier::rlimit(40)]
pub proof fn lemma_base64_round_trip(input: Seq<u8>)
    ensures
        spec_base64_decode(spec_base64(input)) == input,
{
    let t = spec_base64(input);
    let n = input.len() as int;
    let groups = (n + 2) / 3;
    assert(t.len() == groups * 4);
    assert(t.len() / 4 == groups);
    if n > 0 {
        let g = groups - 1;
        let m = byte_or_zero(input, 3 * g) * 65536 + byte_or_zero(input, 3 * g + 1) * 256
            + byte_or_zero(input, 3 * g + 2);
        assert(t[4 * g + 2] == b64_at(input, 4 * g + 2));
        assert(t[4 * g + 3] == b64_at(input, 4 * g + 3));
        assert((4 * g + 2) / 4 == g && (4 * g + 2) % 4 == 2);
        assert((4 * g + 3) / 4 == g && (4 * g + 3) % 4 == 3);
        lemma_group_bytes(byte_or_zero(input, 3 * g), byte_or_zero(input, 3 * g + 1), byte_or_zero(input, 3 * g + 2));
        if 3 * g + 1 < n {
            lemma_char_value(m / 64 % 64);
        }
        if 3 * g + 2 < n {
            lemma_char_value(m % 64);
        }
        assert(t.len() - 1 == 4 * g + 3);
        assert(t.len() - 2 == 4 * g + 2);
    }
    let d = spec_base64_decode(t);
    assert(d.len() == n);
    assert forall|i: int| 0 <= i < n implies #[trigger] d[i] == input[i] by {
        let g = i / 3;
        let r = i % 3;
        let b0 = byte_or_zero(input, 3 * g);
        let b1 = byte_or_zero(input, 3 * g + 1);
        let b2 = byte_or_zero(input, 3 * g + 2);
        let m = b0 * 65536 + b1 * 256 + b2;
        lemma_group_bytes(b0, b1, b2);
        assert(0 <= g < groups);
        assert((4 * g) / 4 == g && (4 * g) % 4 == 0);
        assert((4 * g + 1) / 4 == g && (4 * g + 1) % 4 == 1);
        assert((4 * g + 2) / 4 == g && (4 * g + 2) % 4 == 2);
        assert((4 * g + 3) / 4 == g && (4 * g + 3) % 4 == 3);
        assert(t[4 * g] == b64_at(input, 4 * g));
        assert(t[4 * g + 1] == b64_at(input, 4 * g + 1));
        assert(t[4 * g + 2] == b64_at(input, 4 * g + 2));
        assert(t[4 * g + 3] == b64_at(input, 4 * g + 3));
        lemma_char_value(m / 262144);
        lemma_char_value(m / 4096 % 64);
        if 3 * g + 1 < n {
            lemma_char_value(m / 64 % 64);
        } else {
            assert(b1 == 0 && b2 == 0);
            assert(m / 64 % 64 == 0);
        }
        if 3 * g + 2 < n {
            lemma_char_value(m % 64);
        } else {
            assert(b2 == 0);
            assert(m % 64 == 0) by (nonlinear_arith)
                requires
                    m == b0 * 65536 + b1 * 256 + b2,
                    b2 == 0,
            ;
        }
        assert(b64_group_value(t, g) == m);
        assert(3 * g + r == i);
        if r == 0 {
            assert(b0 == input[i] as int);
        } else if r == 1 {
            assert(b1 == input[i] as int);
        } else {
            assert(b2 == input[i] as int);
        }
    }
    assert(d =~= input);
}

fn sextet_char(v: u32) -> (c: char)
    requires
        v < 64,
    ensures
        c == b64_char(v as int),
{
    if v < 26 {
        ((65 + v) as u8) as char
    } else if v < 52 {
        ((97 + (v - 26)) as u8) as char
    } else if v < 62 {
        ((48 + (v - 52)) as u8) as char
    } else if v == 62 {
        '+'
    } else {
        '/'
    }
}

proof fn lemma_sextets(b0: u32, b1: u32, b2: u32)
    requires
        b0 < 256,
        b1 < 256,
        b2 < 256,
    ensures
        ({
            let n = (b0 << 16) | (b1 << 8) | b2;
            let m = b0 * 65536 + b1 * 256 + b2;
            &&& n == m
            &&& (n >> 18) & 63 == m / 262144
            &&& (n >> 12) & 63 == m / 4096 % 64
            &&& (n >> 6) & 63 == m / 64 % 64
            &&& n & 63 == m % 64
        }),
{
    assert(((b0 << 16) | (b1 << 8) | b2) == b0 * 65536 + b1 * 256 + b2) by (bit_vector)
        requires
            b0 < 256,
            b1 < 256,
            b2 < 256,
    ;
    let n = (b0 << 16) | (b1 << 8) | b2;
    assert((n >> 18) & 63 == n / 262144 && (n >> 12) & 63 == n / 4096 % 64 && (n >> 6) & 63
        == n / 64 % 64 && n & 63 == n % 64) by (bit_vector)
        requires
            n < 16777216,
    ;
}

/// Base64, RFC 4648 standard alphabet with `=` padding.
pub fn base64_encode(input: &[u8]) -> (out: String)
    ensures
        out@ == spec_base64(input@),
{
    let len = input.len();
    let groups: usize = len / 3 + if len % 3 == 0 {
        0
    } else {
        1
    };
    assert(groups == (len + 2) / 3);
    let mut out = String::new();
    let mut g: usize = 0;
    while g < groups
        invariant
            len == input@.len(),
            groups == (len + 2) / 3,
            g <= groups,
            out@.len() == 4 * g,
            forall|k: int| 0 <= k < out@.len() ==> #[trigger] out@[k] == b64_at(input@, k),
        decreases groups - g,
    {
        let i: usize = 3 * g;
        let b0: u32 = input[i] as u32;
        let b1: u32 = if i + 1 < len {
            input[i + 1] as u32
        } else {
            0
        };
        let b2: u32 = if i + 2 < len {
            input[i + 2] as u32
        } else {
            0
        };
        proof {
            lemma_sextets(b0, b1, b2);
        }
        let n: u32 = (b0 << 16) | (b1 << 8) | b2;
        let c0 = sextet_char((n >> 18) & 63);
        let c1 = sextet_char((n >> 12) & 63);
        let c2 = if i + 1 < len {
            sextet_char((n >> 6) & 63)
        } else {
            '='
        };
        let c3 = if i + 2 < len {
            sextet_char(n & 63)
        } else {
            '='
        };
        let ghost before = out@;
        push_char(&mut out, c0);
        push_char(&mut out, c1);
        push_char(&mut out, c2);
        push_char(&mut out, c3);
        proof {
            assert(out@ =~= before + seq![c0, c1, c2, c3]);
            assert forall|k: int| 0 <= k < out@.len() implies #[trigger] out@[k] == b64_at(
                input@,
                k,
            ) by {
                if k >= before.len() {
                    assert(k / 4 == g);
                    assert(byte_or_zero(input@, 3 * g) == b0);
                    assert(byte_or_zero(input@, 3 * g + 1) == b1);
                    assert(byte_or_zero(input@, 3 * g + 2) == b2);
                } else {
                    assert(out@[k] == before[k]);
                }
            }
        }
        g = g + 1;
    }
    assert(out@ =~= spec_base64(input@));
    out
}

// ---- box-filter downscale ------------------------------------------------

/// What pixel `i` of an RGB24 buffer adds to a box: channel `c` (0..3) of it,
/// or 1 for `c == 3` (the count), when all three of its bytes are present;
/// nothing otherwise.
pub open spec fn px_acc(src: Seq<u8>, i: int, c: int) -> int {
    if 0 <= i && i * 3 + 2 < src.len() {
        if c < 3 {
            src[i * 3 + c] as int
        } else {
            1
        }
    } else {
        0
    }
}

/// Sum of `px_acc` over columns `x0 .. x1` of source row `y`.
pub open spec fn row_acc(src: Seq<u8>, w: int, y: int, x0: int, x1: int, c: int) -> int
    decreases x1 - x0,
{
    if x1 <= x0 {
        0
    } else {
        row_acc(src, w, y, x0, x1 - 1, c) + px_acc(src, y * w + (x1 - 1), c)
    }
}

/// Sum of `px_acc` over the box of rows `y0 .. y1`, columns `x0 .. x1`.
pub open spec fn box_acc(src: Seq<u8>, w: int, y0: int, y1: int, x0: int, x1: int, c: int) -> int
    decreases y1 - y0,
{
    if y1 <= y0 {
        0
    } else {
        box_acc(src, w, y0, y1 - 1, x0, x1, c) + row_acc(src, w, y1 - 1, x0, x1, c)
    }
}

/// Height after scaling to `dst_w` wide: rounded to nearest, never zero.
pub open spec fn scaled_height(src_w: int, src_h: int, dst_w: int) -> int {
    let h = (src_h * dst_w + src_w / 2) / src_w;
    if h < 1 {
        1
    } else {
        h
    }
}

/// First source line of destination line `d` when `s` lines become `ds`.
pub open spec fn box_lo(d: int, s: int, ds: int) -> int {
    d * s / ds
}

/// One past the last source line of destination line `d`: at least one line,
/// never past the source.
pub open spec fn box_hi(d: int, s: int, ds: int) -> int {
    let lo = d * s / ds;
    let hi = (d + 1) * s / ds;
    let hi1 = if hi < lo + 1 {
        lo + 1
    } else {
        hi
    };
    if hi1 < s {
        hi1
    } else {
        s
    }
}

/// Byte `k` of the downscaled image: channel `k % 3` of destination pixel
/// `k / 3`, the integer mean of that channel over the source pixels in its box
/// (0 when none of them is present).
pub open spec fn down_byte(src: Seq<u8>, sw: int, sh: int, dw: int, dh: int, k: int) -> u8 {
    let p = k / 3;
    let c = k % 3;
    let dy = p / dw;
    let dx = p % dw;
    let y0 = box_lo(dy, sh, dh);
    let y1 = box_hi(dy, sh, dh);
    let x0 = box_lo(dx, sw, dw);
    let x1 = box_hi(dx, sw, dw);
    let n = box_acc(src, sw, y0, y1, x0, x1, 3);
    if n > 0 {
        (box_acc(src, sw, y0, y1, x0, x1, c) / n) as u8
    } else {
        0
    }
}

/// Whether `downscale_rgb24` leaves the frame as it is.
pub open spec fn keeps_size(src_w: u32, src_h: u32, max_width: u32) -> bool {
    max_width == 0 || src_w <= max_width || src_w == 0 || src_h == 0
}

/// The downscaled geometry and bytes.
pub open spec fn spec_downscale(src: Seq<u8>, src_w: u32, src_h: u32, max_width: u32) -> (
    u32,
    u32,
    Seq<u8>,
) {
    if keeps_size(src_w, src_h, max_width) {
        (src_w, src_h, src)
    } else {
        let dw = max_width as int;
        let dh = scaled_height(src_w as int, src_h as int, dw);
        (
            max_width,
            dh as u32,
            Seq::new(
                (dw * dh * 3) as nat,
                |k: int| down_byte(src, src_w as int, src_h as int, dw, dh, k),
            ),
        )
    }
}

proof fn lemma_cell_index(y: int, x: int, w: int, h: int)
    requires
        0 <= y < h,
        0 <= x < w,
    ensures
        0 <= y * w + x < w * h,
        y * w + x <= w * h - 1,
{
    assert(0 <= y * w + x < w * h) by (nonlinear_arith)
        requires
            0 <= y < h,
            0 <= x < w,
    ;
}

proof fn lemma_box_bounds(d: int, s: int, ds: int)
    requires
        0 <= d < ds,
        0 < s,
    ensures
        0 <= box_lo(d, s, ds) < box_hi(d, s, ds) <= s,
        box_lo(d, s, ds) < s,
{
    assert(0 <= d * s / ds < s) by (nonlinear_arith)
        requires
            0 <= d < ds,
            0 < s,
    {
        assert(d * s < ds * s);
        vstd::arithmetic::div_mod::lemma_div_by_multiple_is_strongly_ordered(d * s, s * ds, s, ds);
        vstd::arithmetic::div_mod::lemma_div_multiples_vanish(s, ds);
    }
}

/// The channel sums and the count of present pixels over one box.
fn box_sums(src: &[u8], src_w: u32, src_h: u32, y0: usize, y1: usize, x0: usize, x1: usize) -> (res: (
    u128,
    u128,
    u128,
    u128,
))
    requires
        y0 < y1 <= src_h,
        x0 < x1 <= src_w,
        src_w * src_h * 3 <= usize::MAX + 1,
    ensures
        res.0 == box_acc(src@, src_w as int, y0 as int, y1 as int, x0 as int, x1 as int, 0),
        res.1 == box_acc(src@, src_w as int, y0 as int, y1 as int, x0 as int, x1 as int, 1),
        res.2 == box_acc(src@, src_w as int, y0 as int, y1 as int, x0 as int, x1 as int, 2),
        res.3 == box_acc(src@, src_w as int, y0 as int, y1 as int, x0 as int, x1 as int, 3),
        res.0 <= 255 * res.3,
        res.1 <= 255 * res.3,
        res.2 <= 255 * res.3,
{
    let ghost w = src_w as int;
    let ghost s = src@;
    let sw: usize = src_w as usize;
    let mut r: u128 = 0;
    let mut g: u128 = 0;
    let mut b: u128 = 0;
    let mut n: u128 = 0;
    let mut sy: usize = y0;
    while sy < y1
        invariant
            s == src@,
            w == src_w,
            sw == src_w,
            y0 <= sy <= y1,
            y1 <= src_h,
            x0 < x1 <= src_w,
            src_w * src_h * 3 <= usize::MAX + 1,
            r == box_acc(s, w, y0 as int, sy as int, x0 as int, x1 as int, 0),
            g == box_acc(s, w, y0 as int, sy as int, x0 as int, x1 as int, 1),
            b == box_acc(s, w, y0 as int, sy as int, x0 as int, x1 as int, 2),
            n == box_acc(s, w, y0 as int, sy as int, x0 as int, x1 as int, 3),
            n <= (sy - y0) * (x1 - x0),
            r <= 255 * n,
            g <= 255 * n,
            b <= 255 * n,
        decreases y1 - sy,
    {
        let ghost (r0, g0, b0, n0) = (r as int, g as int, b as int, n as int);
        let mut sx: usize = x0;
        while sx < x1
            invariant
                s == src@,
                w == src_w,
                sw == src_w,
                y0 <= sy < y1,
                y1 <= src_h,
                x0 <= sx <= x1,
                x1 <= src_w,
                src_w * src_h * 3 <= usize::MAX + 1,
                r == r0 + row_acc(s, w, sy as int, x0 as int, sx as int, 0),
                g == g0 + row_acc(s, w, sy as int, x0 as int, sx as int, 1),
                b == b0 + row_acc(s, w, sy as int, x0 as int, sx as int, 2),
                n == n0 + row_acc(s, w, sy as int, x0 as int, sx as int, 3),
                n0 <= (sy - y0) * (x1 - x0),
                n <= n0 + (sx - x0),
                r <= 255 * n,
                g <= 255 * n,
                b <= 255 * n,
            decreases x1 - sx,
        {
            proof {
                lemma_cell_index(sy as int, sx as int, w, src_h as int);
                assert((sy - y0) * (x1 - x0) + (sx - x0) < (y1 - y0) * (x1 - x0)) by (nonlinear_arith)
                    requires
                        y0 <= sy < y1,
                        x0 <= sx < x1,
                ;
                assert((y1 - y0) * (x1 - x0) <= src_h * src_w) by (nonlinear_arith)
                    requires
                        y0 < y1 <= src_h,
                        x0 < x1 <= src_w,
                ;
                assert(src_h * src_w <= 0xffff_ffff * 0xffff_ffff) by (nonlinear_arith)
                    requires
                        src_h <= 0xffff_ffff,
                        src_w <= 0xffff_ffff,
                ;
            }
            let i: usize = (sy * sw + sx) * 3;
            if i + 2 < src.len() {
                r = r + src[i] as u128;
                g = g + src[i + 1] as u128;
                b = b + src[i + 2] as u128;
                n = n + 1;
            }
            sx = sx + 1;
        }
        proof {
            assert(n <= (sy + 1 - y0) * (x1 - x0)) by (nonlinear_arith)
                requires
                    n <= n0 + (x1 - x0),
                    n0 <= (sy - y0) * (x1 - x0),
            ;
        }
        sy = sy + 1;
    }
    (r, g, b, n)
}

/// The source box of one destination line or column, in source units.
fn box_range(d: u64, s: u64, ds: u64) -> (res: (usize, usize))
    requires
        d < ds,
        0 < s <= 0xffff_ffff,
        ds <= 0xffff_ffff,
    ensures
        res.0 == box_lo(d as int, s as int, ds as int),
        res.1 == box_hi(d as int, s as int, ds as int),
        res.0 < res.1 <= s,
{
    proof {
        lemma_box_bounds(d as int, s as int, ds as int);
        assert((d + 1) * s <= 0xffff_ffff * 0xffff_ffff) by (nonlinear_arith)
            requires
                d < ds <= 0xffff_ffff,
                s <= 0xffff_ffff,
        ;
        assert(d * s <= (d + 1) * s) by (nonlinear_arith);
    }
    let lo: u64 = d * s / ds;
    let hi: u64 = (d + 1) * s / ds;
    let hi1: u64 = if hi < lo + 1 {
        lo + 1
    } else {
        hi
    };
    let end: u64 = if hi1 < s {
        hi1
    } else {
        s
    };
    (lo as usize, end as usize)
}

/// Box-filter downscale to at most `max_width` wide, preserving aspect ratio.
///
/// Each destination pixel is the mean of the source pixels in its box, not a
/// point sample: picking every fourth pixel aliases text and thin edges into
/// noise. Never upscales: a frame no wider than `max_width` (or a limit of
/// 0) comes back untouched.
pub fn downscale_rgb24(src: &[u8], src_w: u32, src_h: u32, max_width: u32) -> (res: (
    u32,
    u32,
    Vec<u8>,
))
    requires
        !keeps_size(src_w, src_h, max_width) ==> src_w * src_h * 3 <= usize::MAX + 1,
    ensures
        (res.0, res.1, res.2@) == spec_downscale(src@, src_w, src_h, max_width),
        !keeps_size(src_w, src_h, max_width) ==> res.2@.len() == (res.0 as int) * (res.1 as int) * 3,
{
    if max_width == 0 || src_w <= max_width || src_w == 0 || src_h == 0 {
        return (src_w, src_h, copy_slice(src));
    }
    let dst_w = max_width;
    let ghost (sw, sh, dw) = (src_w as int, src_h as int, dst_w as int);
    proof {
        assert((src_h as int) * (dst_w as int) <= 0xffff_ffff * 0xffff_ffff) by (nonlinear_arith)
            requires
                src_h <= 0xffff_ffff,
                dst_w <= 0xffff_ffff,
        ;
        assert((sh * dw + sw / 2) / sw <= sh) by (nonlinear_arith)
            requires
                0 < dw < sw,
                0 < sh,
        {
            assert(sh * dw + sw / 2 < (sh + 1) * sw);
            vstd::arithmetic::div_mod::lemma_div_by_multiple_is_strongly_ordered(
                sh * dw + sw / 2,
                (sh + 1) * sw,
                sh + 1,
                sw,
            );
            vstd::arithmetic::div_mod::lemma_div_multiples_vanish(sh + 1, sw);
        }
    }
    let h0: u64 = ((src_h as u64) * (dst_w as u64) + (src_w as u64) / 2) / (src_w as u64);
    let dst_h: u32 = if h0 < 1 {
        1
    } else {
        h0 as u32
    };
    let ghost dh = dst_h as int;
    assert(dh == scaled_height(sw, sh, dw));
    proof {
        assert(dw * dh * 3 <= sw * sh * 3) by (nonlinear_arith)
            requires
                0 < dw < sw,
                0 < dh <= sh,
        ;
    }
    let mut out: Vec<u8> = Vec::new();
    let mut dy: u32 = 0;
    while dy < dst_h
        invariant
            0 < dst_w < src_w,
            0 < dst_h <= src_h,
            dh == dst_h,
            dw == dst_w,
            sw == src_w,
            sh == src_h,
            src_w * src_h * 3 <= usize::MAX + 1,
            dw * dh * 3 <= sw * sh * 3,
            dy <= dst_h,
            out@.len() == dy * dw * 3,
            forall|k: int| 0 <= k < out@.len() ==> #[trigger] out@[k] == down_byte(src@, sw, sh, dw, dh, k),
        decreases dst_h - dy,
    {
        let (sy0, sy1) = box_range(dy as u64, src_h as u64, dst_h as u64);
        let mut dx: u32 = 0;
        while dx < dst_w
            invariant
                0 < dst_w < src_w,
                0 < dst_h <= src_h,
                dh == dst_h,
                dw == dst_w,
                sw == src_w,
                sh == src_h,
                src_w * src_h * 3 <= usize::MAX + 1,
                dw * dh * 3 <= sw * sh * 3,
                dy < dst_h,
                dx <= dst_w,
                sy0 == box_lo(dy as int, sh, dh),
                sy1 == box_hi(dy as int, sh, dh),
                sy0 < sy1 <= src_h,
                out@.len() == (dy * dw + dx) * 3,
                forall|k: int| 0 <= k < out@.len() ==> #[trigger] out@[k] == down_byte(src@, sw, sh, dw, dh, k),
            decreases dst_w - dx,
        {
            let (sx0, sx1) = box_range(dx as u64, src_w as u64, dst_w as u64);
            let (r, g, b, n) = box_sums(src, src_w, src_h, sy0, sy1, sx0, sx1);
            let (vr, vg, vb): (u8, u8, u8) = if n > 0 {
                proof {
                    assert(r / n <= 255 && g / n <= 255 && b / n <= 255) by (nonlinear_arith)
                        requires
                            r <= 255 * n,
                            g <= 255 * n,
                            b <= 255 * n,
                            n > 0,
                    ;
                }
                ((r / n) as u8, (g / n) as u8, (b / n) as u8)
            } else {
                (0, 0, 0)
            };
            let ghost before = out@;
            proof {
                let p = dy * dw + dx;
                assert(p + 1 <= dw * dh) by (nonlinear_arith)
                    requires
                        p == dy * dw + dx,
                        dx < dw,
                        dy < dh,
                ;
            }
            out.push(vr);
            out.push(vg);
            out.push(vb);
            proof {
                let p = dy * dw + dx;
                assert forall|k: int| 0 <= k < out@.len() implies #[trigger] out@[k] == down_byte(
                    src@,
                    sw,
                    sh,
                    dw,
                    dh,
                    k,
                ) by {
                    if k >= before.len() {
                        let c = k - 3 * p;
                        vstd::arithmetic::div_mod::lemma_fundamental_div_mod_converse(k, 3, p, c);
                        vstd::arithmetic::div_mod::lemma_fundamental_div_mod_converse(
                            p,
                            dw,
                            dy as int,
                            dx as int,
                        );
                    } else {
                        assert(out@[k] == before[k]);
                    }
                }
            }
            dx = dx + 1;
        }
        dy = dy + 1;
        proof {
            assert((dy - 1) * dw + dw == dy * dw) by (nonlinear_arith);
        }
    }
    proof {
        assert(out@.len() == dw * dh * 3) by (nonlinear_arith)
            requires
                out@.len() == dy * dw * 3,
                dy == dh,
        ;
        assert(out@ =~= Seq::new(
            (dw * dh * 3) as nat,
            |k: int| down_byte(src@, sw, sh, dw, dh, k),
        ));
    }
    (dst_w, dst_h, out)
}

/// Downscaling never enlarges: the width is at most the limit (when one is
/// set and the frame is wider), the height never grows and never reaches 0,
/// and a scaled image holds exactly `width * height * 3` bytes.
pub proof fn lemma_downscale_shape(src: Seq<u8>, src_w: u32, src_h: u32, max_width: u32)
    ensures
        ({
            let (w, h, px) = spec_downscale(src, src_w, src_h, max_width);
            &&& w <= src_w
            &&& keeps_size(src_w, src_h, max_width) ==> w == src_w && h == src_h && px == src
            &&& !keeps_size(src_w, src_h, max_width) ==> {
                &&& w == max_width
                &&& 1 <= h <= src_h
                &&& px.len() == (w as int) * (h as int) * 3
            }
        }),
{
    if !keeps_size(src_w, src_h, max_width) {
        let (sw, sh, dw) = (src_w as int, src_h as int, max_width as int);
        assert((sh * dw + sw / 2) / sw <= sh) by (nonlinear_arith)
            requires
                0 < dw < sw,
                0 < sh,
        {
            assert(sh * dw + sw / 2 < (sh + 1) * sw);
            vstd::arithmetic::div_mod::lemma_div_by_multiple_is_strongly_ordered(
                sh * dw + sw / 2,
                (sh + 1) * sw,
                sh + 1,
                sw,
            );
            vstd::arithmetic::div_mod::lemma_div_multiples_vanish(sh + 1, sw);
        }
        assert(0 <= (sh * dw + sw / 2) / sw) by (nonlinear_arith)
            requires
                0 < dw,
                0 < sw,
                0 < sh,
        ;
    }
}

/// A row of present pixels counts one per column.
proof fn lemma_row_count(src: Seq<u8>, w: int, y: int, x0: int, x1: int)
    requires
        0 <= x0 <= x1,
        0 <= y,
        0 <= w,
        (y * w + x1) * 3 <= src.len(),
    ensures
        row_acc(src, w, y, x0, x1, 3) == x1 - x0,
    decreases x1 - x0,
{
    if x1 > x0 {
        lemma_row_count(src, w, y, x0, x1 - 1);
        assert(0 <= y * w) by (nonlinear_arith)
            requires
                0 <= y,
                0 <= w,
        ;
        assert(px_acc(src, y * w + (x1 - 1), 3) == 1);
    }
}

/// A box of present pixels counts one per pixel.
proof fn lemma_box_count(src: Seq<u8>, w: int, h: int, y0: int, y1: int, x0: int, x1: int)
    requires
        0 <= y0 <= y1 <= h,
        0 <= x0 <= x1 <= w,
        w * h * 3 <= src.len(),
    ensures
        box_acc(src, w, y0, y1, x0, x1, 3) == (y1 - y0) * (x1 - x0),
    decreases y1 - y0,
{
    if y1 > y0 {
        lemma_box_count(src, w, h, y0, y1 - 1, x0, x1);
        assert(((y1 - 1) * w + x1) * 3 <= w * h * 3) by (nonlinear_arith)
            requires
                1 <= y1 <= h,
                0 <= x1 <= w,
        ;
        lemma_row_count(src, w, y1 - 1, x0, x1);
        assert((y1 - y0) * (x1 - x0) == (y1 - 1 - y0) * (x1 - x0) + (x1 - x0)) by (nonlinear_arith);
    } else {
        assert((y1 - y0) * (x1 - x0) == 0) by (nonlinear_arith)
            requires
                y1 == y0,
        ;
    }
}

/// Each byte of a downscaled image is the integer mean of its channel over
/// the source box of its pixel: for destination row `dy` of `dh` the source
/// rows `dy * sh / dh` up to `(dy + 1) * sh / dh` (at least one row, never past
/// the source), and likewise for columns; every row and column of the box
/// counts, so a whole frame's box counts `rows * columns` pixels.
pub proof fn lemma_downscale_box_mean(src: Seq<u8>, src_w: u32, src_h: u32, max_width: u32, dy: int, dx: int, ch: int)
    requires
        !keeps_size(src_w, src_h, max_width),
        0 <= dy < spec_downscale(src, src_w, src_h, max_width).1,
        0 <= dx < spec_downscale(src, src_w, src_h, max_width).0,
        0 <= ch < 3,
    ensures
        ({
            let (dw32, dh32, px) = spec_downscale(src, src_w, src_h, max_width);
            let (sw, sh, dw, dh) = (src_w as int, src_h as int, dw32 as int, dh32 as int);
            let y0 = dy * sh / dh;
            let y1 = if (dy + 1) * sh / dh > y0 {
                if (dy + 1) * sh / dh < sh { (dy + 1) * sh / dh } else { sh }
            } else {
                if y0 + 1 < sh { y0 + 1 } else { sh }
            };
            let x0 = dx * sw / dw;
            let x1 = if (dx + 1) * sw / dw > x0 {
                if (dx + 1) * sw / dw < sw { (dx + 1) * sw / dw } else { sw }
            } else {
                if x0 + 1 < sw { x0 + 1 } else { sw }
            };
            let n = box_acc(src, sw, y0, y1, x0, x1, 3);
            &&& px[(dy * dw + dx) * 3 + ch] == (if n > 0 {
                (box_acc(src, sw, y0, y1, x0, x1, ch) / n) as u8
            } else {
                0u8
            })
            &&& src.len() >= sw * sh * 3 ==> 0 <= y0 < y1 <= sh && 0 <= x0 < x1 <= sw && n == (y1
                - y0) * (x1 - x0)
        }),
{
    lemma_downscale_shape(src, src_w, src_h, max_width);
    let (dw32, dh32, px) = spec_downscale(src, src_w, src_h, max_width);
    let (sw, sh, dw, dh) = (src_w as int, src_h as int, dw32 as int, dh32 as int);
    assert((sh * dw + sw / 2) / sw <= sh) by (nonlinear_arith)
        requires
            0 < dw < sw,
            0 < sh,
    {
        assert(sh * dw + sw / 2 < (sh + 1) * sw);
        vstd::arithmetic::div_mod::lemma_div_by_multiple_is_strongly_ordered(
            sh * dw + sw / 2,
            (sh + 1) * sw,
            sh + 1,
            sw,
        );
        vstd::arithmetic::div_mod::lemma_div_multiples_vanish(sh + 1, sw);
    }
    assert(dh == scaled_height(sw, sh, dw));
    let p = dy * dw + dx;
    let k = p * 3 + ch;
    assert(k < dw * dh * 3) by (nonlinear_arith)
        requires
            0 <= dy < dh,
            0 <= dx < dw,
            0 <= ch < 3,
            p == dy * dw + dx,
            k == p * 3 + ch,
    ;
    assert(0 <= p) by (nonlinear_arith)
        requires
            0 <= dy,
            0 <= dx,
            dw > 0,
            p == dy * dw + dx,
    ;
    vstd::arithmetic::div_mod::lemma_fundamental_div_mod_converse(k, 3, p, ch);
    vstd::arithmetic::div_mod::lemma_fundamental_div_mod_converse(p, dw, dy, dx);
    assert(px[k] == down_byte(src, sw, sh, dw, dh, k));
    if src.len() >= sw * sh * 3 {
        lemma_box_bounds(dy, sh, dh);
        lemma_box_bounds(dx, sw, dw);
        lemma_box_count(src, sw, sh, box_lo(dy, sh, dh), box_hi(dy, sh, dh), box_lo(dx, sw, dw), box_hi(dx, sw, dw));
    }
}

/// A downscaled image is `max_width` wide and keeps the aspect ratio: its
/// height is `src_h * max_width / src_w` rounded to the nearest whole number
/// (halves up), and never below 1.
pub proof fn lemma_downscale_height(src: Seq<u8>, src_w: u32, src_h: u32, max_width: u32)
    requires
        !keeps_size(src_w, src_h, max_width),
    ensures
        ({
            let (dw32, dh32, px) = spec_downscale(src, src_w, src_h, max_width);
            let (sw, sh, dw, dh) = (src_w as int, src_h as int, dw32 as int, dh32 as int);
            &&& dw32 == max_width
            &&& dh >= 1
            &&& sh * dw + sw / 2 < (dh + 1) * sw
            &&& dh > 1 ==> dh * sw <= sh * dw + sw / 2
        }),
{
    lemma_downscale_shape(src, src_w, src_h, max_width);
    let (dw32, dh32, px) = spec_downscale(src, src_w, src_h, max_width);
    let (sw, sh, dw, dh) = (src_w as int, src_h as int, dw32 as int, dh32 as int);
    let x = sh * dw + sw / 2;
    let q = x / sw;
    vstd::arithmetic::div_mod::lemma_fundamental_div_mod(x, sw);
    assert(q * sw <= x < (q + 1) * sw) by (nonlinear_arith)
        requires
            x == sw * q + x % sw,
            0 <= x % sw < sw,
    ;
    assert((sh * dw + sw / 2) / sw <= sh) by (nonlinear_arith)
        requires
            0 < dw < sw,
            0 < sh,
    {
        assert(sh * dw + sw / 2 < (sh + 1) * sw);
        vstd::arithmetic::div_mod::lemma_div_by_multiple_is_strongly_ordered(
            sh * dw + sw / 2,
            (sh + 1) * sw,
            sh + 1,
            sw,
        );
        vstd::arithmetic::div_mod::lemma_div_multiples_vanish(sh + 1, sw);
    }
    assert(dh == scaled_height(sw, sh, dw));
    if q < 1 {
        assert(x < 2 * sw) by (nonlinear_arith)
            requires
                x < (q + 1) * sw,
                q < 1,
                sw > 0,
        ;
    }
}

/// A fresh vector holding the bytes of `src`.
pub fn copy_slice(src: &[u8]) -> (v: Vec<u8>)
    ensures
        v@ == src@,
{
    let mut v: Vec<u8> = Vec::new();
    let mut i: usize = 0;
    while i < src.len()
        invariant
            i <= src@.len(),
            v@ == src@.subrange(0, i as int),
        decreases src@.len() - i,
    {
        v.push(src[i]);
        i = i + 1;
        assert(v@ =~= src@.subrange(0, i as int));
    }
    assert(v@ =~= src@);
    v
}


// ---- errors ---------------------------------------------------------------

#[derive(Debug)]
pub enum SnapshotError {
    Empty,
    /// The frame's width and height, one of them zero.
    ZeroSized(u32, u32),
    UnsupportedFormat(PixelFormat),
    Decode(MjpegError),
    Truncated { actual: usize, expected: usize },
    Encode(String),
}

pub enum SnapshotErrorView {
    Empty,
    ZeroSized(u32, u32),
    UnsupportedFormat(PixelFormat),
    Decode(MjpegErrorView),
    Truncated { actual: usize, expected: usize },
    Encode(Seq<char>),
}

impl View for SnapshotError {
    type V = SnapshotErrorView;

    open spec fn view(&self) -> SnapshotErrorView {
        match self {
            SnapshotError::Empty => SnapshotErrorView::Empty,
            SnapshotError::ZeroSized(w, h) => SnapshotErrorView::ZeroSized(*w, *h),
            SnapshotError::UnsupportedFormat(f) => SnapshotErrorView::UnsupportedFormat(*f),
            SnapshotError::Decode(e) => SnapshotErrorView::Decode(e@),
            SnapshotError::Truncated { actual, expected } => SnapshotErrorView::Truncated {
                actual: *actual,
                expected: *expected,
            },
            SnapshotError::Encode(m) => SnapshotErrorView::Encode(m@),
        }
    }
}

pub open spec fn spec_snapshot_message(e: SnapshotErrorView) -> Seq<char> {
    match e {
        SnapshotErrorView::Empty => "frame is empty"@,
        SnapshotErrorView::ZeroSized(w, h) => "frame geometry is zero ("@ + decimal(w as nat) + "x"@
            + decimal(h as nat) + ")"@,
        SnapshotErrorView::UnsupportedFormat(f) => "cannot decode "@ + spec_debug_name(f)
            + " frames to pixels"@,
        SnapshotErrorView::Decode(m) => "mjpeg decode failed: "@ + spec_mjpeg_message(m),
        SnapshotErrorView::Truncated { actual, expected } => "frame buffer is "@ + decimal(
            actual as nat,
        ) + " bytes, expected at least "@ + decimal(expected as nat),
        SnapshotErrorView::Encode(m) => "jpeg encode failed: "@ + m,
    }
}

impl SnapshotError {
    /// The human-readable description of the error.
    pub fn message(&self) -> (s: String)
        ensures
            s@ == spec_snapshot_message(self@),
    {
        let mut s = String::new();
        match self {
            SnapshotError::Empty => push_str(&mut s, "frame is empty"),
            SnapshotError::ZeroSized(w, h) => {
                push_str(&mut s, "frame geometry is zero (");
                push_decimal(&mut s, *w as u64);
                push_str(&mut s, "x");
                push_decimal(&mut s, *h as u64);
                push_str(&mut s, ")");
            },
            SnapshotError::UnsupportedFormat(f) => {
                push_str(&mut s, "cannot decode ");
                push_str(&mut s, f.debug_name());
                push_str(&mut s, " frames to pixels");
            },
            SnapshotError::Decode(e) => {
                push_str(&mut s, "mjpeg decode failed: ");
                let m = e.message();
                push_str(&mut s, m.as_str());
            },
            SnapshotError::Truncated { actual, expected } => {
                push_str(&mut s, "frame buffer is ");
                push_decimal(&mut s, *actual as u64);
                push_str(&mut s, " bytes, expected at least ");
                push_decimal(&mut s, *expected as u64);
            },
            SnapshotError::Encode(m) => {
                push_str(&mut s, "jpeg encode failed: ");
                push_str(&mut s, m.as_str());
            },
        }
        s
    }
}

// ---- any frame to RGB24 ---------------------------------------------------

/// `frame` needs its pixel count computed: a non-empty, raw RGB or BGR frame.
pub open spec fn counts_pixels(f: FrameView) -> bool {
    (f.format is Rgb24 || f.format is Bgr24) && f.data.len() > 0
}

/// RGB24 from any frame. MJPEG is decoded and the decoder's geometry wins over
/// the frame header (the header is the mode that was requested; a camera may
/// deliver another). RGB is cut to `w * h * 3` bytes, BGR has each pixel's
/// first and third bytes swapped. `jpeg` is what the JPEG decoder gave for
/// the frame's bytes; only an MJPEG frame reads it.
pub open spec fn spec_to_rgb24(f: FrameView, jpeg: DecoderOutputView) -> Result<(u32, u32, Seq<u8>), SnapshotErrorView> {
    let (w, h) = (f.width, f.height);
    let need = (w as int) * (h as int) * 3;
    if w == 0 || h == 0 {
        Err(SnapshotErrorView::ZeroSized(w, h))
    } else if f.data.len() == 0 {
        Err(SnapshotErrorView::Empty)
    } else {
        match f.format {
            PixelFormat::Mjpeg => match spec_decode_to_rgb24(f.data, jpeg) {
                Ok(t) => Ok(t),
                Err(e) => Err(SnapshotErrorView::Decode(e)),
            },
            PixelFormat::Rgb24 => if f.data.len() < need {
                Err(
                    SnapshotErrorView::Truncated {
                        actual: f.data.len() as usize,
                        expected: need as usize,
                    },
                )
            } else {
                Ok((w, h, f.data.subrange(0, need)))
            },
            PixelFormat::Bgr24 => if f.data.len() < need {
                Err(
                    SnapshotErrorView::Truncated {
                        actual: f.data.len() as usize,
                        expected: need as usize,
                    },
                )
            } else {
                Ok((w, h, Seq::new(need as nat, |k: int| f.data[k - k % 3 + (2 - k % 3)])))
            },
            other => Err(SnapshotErrorView::UnsupportedFormat(other)),
        }
    }
}

fn to_rgb24(frame: &CaptureFrame, jpeg: DecoderOutput) -> (res: Result<(u32, u32, Vec<u8>), SnapshotError>)
    requires
        counts_pixels(frame@) ==> frame.width * frame.height * 3 <= usize::MAX,
    ensures
        match res {
            Ok((w, h, px)) => spec_to_rgb24(frame@, decoder_view(jpeg)) == Ok::<(u32, u32, Seq<u8>), SnapshotErrorView>(
                (w, h, px@),
            ) && w * h * 3 <= usize::MAX,
            Err(e) => spec_to_rgb24(frame@, decoder_view(jpeg)) == Err::<(u32, u32, Seq<u8>), SnapshotErrorView>(e@),
        },
{
    let w = frame.width;
    let h = frame.height;
    if w == 0 || h == 0 {
        return Err(SnapshotError::ZeroSized(w, h));
    }
    if frame.data.len() == 0 {
        return Err(SnapshotError::Empty);
    }
    match frame.format {
        PixelFormat::Mjpeg => match decode_to_rgb24(&frame.data, jpeg) {
            Ok(decoded) => Ok((decoded.width, decoded.height, decoded.rgb24)),
            Err(e) => Err(SnapshotError::Decode(e)),
        },
        PixelFormat::Rgb24 => {
            let need: usize = (w as usize) * (h as usize) * 3;
            if frame.data.len() < need {
                return Err(SnapshotError::Truncated { actual: frame.data.len(), expected: need });
            }
            let mut out: Vec<u8> = Vec::new();
            let mut i: usize = 0;
            while i < need
                invariant
                    need <= frame.data@.len(),
                    i <= need,
                    out@ == frame.data@.subrange(0, i as int),
                decreases need - i,
            {
                out.push(frame.data[i]);
                i = i + 1;
                assert(out@ =~= frame.data@.subrange(0, i as int));
            }
            Ok((w, h, out))
        },
        PixelFormat::Bgr24 => {
            let need: usize = (w as usize) * (h as usize) * 3;
            if frame.data.len() < need {
                return Err(SnapshotError::Truncated { actual: frame.data.len(), expected: need });
            }
            let ghost d = frame.data@;
            let mut out: Vec<u8> = Vec::new();
            let mut i: usize = 0;
            while i < need
                invariant
                    d == frame.data@,
                    need <= d.len(),
                    need % 3 == 0,
                    i % 3 == 0,
                    i <= need,
                    out@.len() == i,
                    forall|k: int| 0 <= k < i ==> #[trigger] out@[k] == d[k - k % 3 + (2 - k % 3)],
                decreases need - i,
            {
                out.push(frame.data[i + 2]);
                out.push(frame.data[i + 1]);
                out.push(frame.data[i]);
                i = i + 3;
            }
            assert(out@ =~= Seq::new(need as nat, |k: int| d[k - k % 3 + (2 - k % 3)]));
            Ok((w, h, out))
        },
        PixelFormat::Nv12 => Err(SnapshotError::UnsupportedFormat(PixelFormat::Nv12)),
        PixelFormat::Yuyv => Err(SnapshotError::UnsupportedFormat(PixelFormat::Yuyv)),
    }
}

// ---- the whole pipeline -----------------------------------------------------

/// What `jpeg_encoder::Encoder::new(&mut Vec::new(), quality).encode(data,
/// width, height, ColorType::Rgb)` leaves in the vector, or the `{:?}` text of
/// the error it returns.
pub uninterp spec fn jpeg_rgb_encoding(data: Seq<u8>, width: u16, height: u16, quality: u8) -> Result<Seq<u8>, Seq<char>>;

/// Encodes RGB24 pixels as a baseline JPEG with `jpeg_encoder`. Besides tying
/// the result to `jpeg_rgb_encoding`, the contract states what the crate's
/// source shows of when it fails: only when the data is shorter than
/// `width * height * 3` bytes (`BadImageData`) or a dimension is zero
/// (`ZeroImageDimensions`); writing into a `Vec` cannot fail. The crate
/// computes `width * height * 3` in `usize` unchecked, so that product must
/// fit.
#[verifier::external_body]
fn encode_jpeg_rgb(data: &[u8], width: u16, height: u16, quality: u8) -> (res: Result<Vec<u8>, String>)
    requires
        1 <= quality <= 100,
        (width as int) * (height as int) * 3 <= usize::MAX,
    ensures
        match res {
            Ok(v) => jpeg_rgb_encoding(data@, width, height, quality) == Ok::<Seq<u8>, Seq<char>>(v@),
            Err(m) => jpeg_rgb_encoding(data@, width, height, quality) == Err::<Seq<u8>, Seq<char>>(m@),
        },
        res is Ok <==> (data@.len() >= (width as int) * (height as int) * 3 && width > 0 && height > 0),
{
    let mut jpeg: Vec<u8> = Vec::new();
    let encoder = jpeg_encoder::Encoder::new(&mut jpeg, quality);
    match encoder.encode(data, width, height, jpeg_encoder::ColorType::Rgb) {
        Ok(()) => Ok(jpeg),
        Err(e) => Err(format!("{e:?}")),
    }
}

pub open spec fn clamp_quality(q: u8) -> u8 {
    if q < 1 {
        1
    } else if q > 100 {
        100
    } else {
        q
    }
}

/// The snapshot made from an encoder's outcome for a `width` x `height` image.
pub open spec fn spec_snapshot_from(width: u32, height: u32, encoded: Result<Seq<u8>, Seq<char>>) -> Result<
    (u32, u32, Seq<char>),
    SnapshotErrorView,
> {
    match encoded {
        Ok(jpeg) => Ok((width, height, spec_base64(jpeg))),
        Err(m) => Err(SnapshotErrorView::Encode(m)),
    }
}

/// Frame to snapshot: RGB24, then downscaled, then JPEG-encoded at the clamped
/// quality, with the geometry handed to the encoder as 16-bit values.
pub open spec fn spec_snapshot(f: FrameView, max_width: u32, quality: u8, jpeg: DecoderOutputView) -> Result<
    (u32, u32, Seq<char>),
    SnapshotErrorView,
> {
    match spec_to_rgb24(f, jpeg) {
        Err(e) => Err(e),
        Ok((w, h, rgb)) => {
            let (dw, dh, scaled) = spec_downscale(rgb, w, h, max_width);
            spec_snapshot_from(
                dw,
                dh,
                jpeg_rgb_encoding(scaled, dw as u16, dh as u16, clamp_quality(quality)),
            )
        },
    }
}

pub open spec fn snapshot_matches(s: Snapshot, t: (u32, u32, Seq<char>)) -> bool {
    &&& s.width == t.0
    &&& s.height == t.1
    &&& s.mime@ == "image/jpeg"@
    &&& s.base64@ == t.2
}

/// The snapshot for an encoder's outcome: the base64 of the JPEG bytes under
/// the `image/jpeg` type, or the encoder's error text.
pub fn snapshot_from_encoding(width: u32, height: u32, encoded: Result<Vec<u8>, String>) -> (res: Result<
    Snapshot,
    SnapshotError,
>)
    ensures
        match (res, spec_snapshot_from(width, height, encoded_view(encoded))) {
            (Ok(s), Ok(t)) => snapshot_matches(s, t),
            (Err(e), Err(ev)) => e@ == ev,
            _ => false,
        },
{
    match encoded {
        Ok(jpeg) => {
            let b = base64_encode(jpeg.as_slice());
            let mime = "image/jpeg";
            Ok(Snapshot { width, height, mime, base64: b })
        },
        Err(m) => Err(SnapshotError::Encode(m)),
    }
}

pub open spec fn encoded_view(e: Result<Vec<u8>, String>) -> Result<Seq<u8>, Seq<char>> {
    match e {
        Ok(v) => Ok(v@),
        Err(m) => Err(m@),
    }
}

/// Prepare a frame for a vision model. `max_width` of 0 means no downscaling;
/// `quality` is the JPEG quality, clamped to 1..=100.
pub fn snapshot(frame: &CaptureFrame, max_width: u32, quality: u8, jpeg: DecoderOutput) -> (res: Result<
    Snapshot,
    SnapshotError,
>)
    requires
        counts_pixels(frame@) ==> frame.width * frame.height * 3 <= usize::MAX,
    ensures
        match (res, spec_snapshot(frame@, max_width, quality, decoder_view(jpeg))) {
            (Ok(s), Ok(t)) => snapshot_matches(s, t),
            (Err(e), Err(ev)) => e@ == ev,
            _ => false,
        },
        res is Ok <==> (spec_to_rgb24(frame@, decoder_view(jpeg)) is Ok && ({
            let (w, h, rgb) = spec_to_rgb24(frame@, decoder_view(jpeg))->Ok_0;
            let (dw, dh, scaled) = spec_downscale(rgb, w, h, max_width);
            (dw as u16) > 0 && (dh as u16) > 0
        })),
{
    let (w, h, rgb) = match to_rgb24(frame, jpeg) {
        Ok(t) => t,
        Err(e) => return Err(e),
    };
    let (dw, dh, scaled) = downscale_rgb24(rgb.as_slice(), w, h, max_width);
    let q: u8 = if quality < 1 {
        1
    } else if quality > 100 {
        100
    } else {
        quality
    };
    proof {
        if !keeps_size(w, h, max_width) {
            assert((dw as int) * (dh as int) * 3 == scaled@.len());
        } else {
            assert(scaled@.len() == (w as int) * (h as int) * 3);
        }
    }
    let w16: u16 = #[verifier::truncate] (dw as u16);
    let h16: u16 = #[verifier::truncate] (dh as u16);
    let n = scaled.len();
    proof {
        assert((dw as u16) as int <= dw as int);
        assert((dh as u16) as int <= dh as int);
        assert(((dw as u16) as int) * ((dh as u16) as int) * 3 <= (dw as int) * (dh as int) * 3) by (nonlinear_arith)
            requires
                0 <= (dw as u16) as int <= dw as int,
                0 <= (dh as u16) as int <= dh as int,
        ;
        assert((dw as int) * (dh as int) * 3 <= n);
    }
    let encoded = encode_jpeg_rgb(scaled.as_slice(), w16, h16, q);
    snapshot_from_encoding(dw, dh, encoded)
}

} // verus!
