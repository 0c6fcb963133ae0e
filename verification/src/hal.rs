//! Hardware-layer logic that does not touch the hardware: V4L2 format codes,
//! node names and capability bits; Media Foundation format decoding; device
//! naming; and the state of the synthetic camera used in tests.

use vstd::prelude::*;
use crate::device::{
    ControlCapabilityInfo, DeviceCapabilities, DeviceId, DeviceInfo, FormatDescriptor, PixelFormat,
};
use crate::error::HalError;
use crate::text::{chars_of, decimal, is_ascii_digit, push_decimal, string_of, str_eq};

verus! {

// ---- V4L2 -------------------------------------------------------------------

/// `_IOR('V', 0, v4l2_capability[104])`.
pub const VIDIOC_QUERYCAP: u64 = 0x8068_5600;
/// `_IOWR('V', 2, v4l2_fmtdesc[64])`.
pub const VIDIOC_ENUM_FMT: u64 = 0xc040_5602;
/// `_IOWR('V', 74, v4l2_frmsizeenum[44])`.
pub const VIDIOC_ENUM_FRAMESIZES: u64 = 0xc02c_564a;
/// `_IOWR('V', 75, v4l2_frmivalenum[52])`.
pub const VIDIOC_ENUM_FRAMEINTERVALS: u64 = 0xc034_564b;

pub const V4L2_BUF_TYPE_VIDEO_CAPTURE: u32 = 1;
pub const V4L2_FRMSIZE_TYPE_DISCRETE: u32 = 1;
pub const V4L2_FRMIVAL_TYPE_DISCRETE: u32 = 1;
pub const V4L2_CAP_VIDEO_CAPTURE: u32 = 0x0000_0001;
pub const V4L2_CAP_DEVICE_CAPS: u32 = 0x8000_0000;

pub open spec fn spec_fourcc(fourcc: u32) -> Option<PixelFormat> {
    if fourcc == 0x5659_5559 {
        Some(PixelFormat::Yuyv)
    } else if fourcc == 0x3231_564e {
        Some(PixelFormat::Nv12)
    } else if fourcc == 0x3342_4752 {
        Some(PixelFormat::Rgb24)
    } else if fourcc == 0x3352_4742 {
        Some(PixelFormat::Bgr24)
    } else if fourcc == 0x4750_4a4d {
        Some(PixelFormat::Mjpeg)
    } else {
        None
    }
}

/// Little-endian FourCC to pixel format: `YUYV`, `NV12`, `RGB3`, `BGR3` and
/// `MJPG` (compressed, but enumerated: on USB 2.0 cameras nearly every mode
/// above 640x480 is MJPEG-only). `None` for anything else.
pub fn fourcc_to_pixel_format(fourcc: u32) -> (r: Option<PixelFormat>)
    ensures
        r == spec_fourcc(fourcc),
{
    if fourcc == 0x5659_5559 {
        Some(PixelFormat::Yuyv)
    } else if fourcc == 0x3231_564e {
        Some(PixelFormat::Nv12)
    } else if fourcc == 0x3342_4752 {
        Some(PixelFormat::Rgb24)
    } else if fourcc == 0x3352_4742 {
        Some(PixelFormat::Bgr24)
    } else if fourcc == 0x4750_4a4d {
        Some(PixelFormat::Mjpeg)
    } else {
        None
    }
}

/// `video` followed by one or more ASCII digits.
pub open spec fn spec_is_video_node(name: Seq<char>) -> bool {
    &&& name.len() > 5
    &&& name.subrange(0, 5) == "video"@
    &&& forall|i: int| 5 <= i < name.len() ==> is_ascii_digit(#[trigger] name[i])
}

/// Is this `/dev` entry a V4L2 video node (`video` + digits)?
pub fn is_video_node(name: &str) -> (b: bool)
    ensures
        b == spec_is_video_node(name@),
{
    let c = chars_of(name);
    proof {
        reveal_strlit("video");
    }
    if c.len() <= 5 {
        return false;
    }
    if !(c[0] == 'v' && c[1] == 'i' && c[2] == 'd' && c[3] == 'e' && c[4] == 'o') {
        assert(c@.subrange(0, 5) != "video"@) by {
            if c@.subrange(0, 5) == "video"@ {
                assert(c@.subrange(0, 5)[0] == c@[0]);
                assert(c@.subrange(0, 5)[1] == c@[1]);
                assert(c@.subrange(0, 5)[2] == c@[2]);
                assert(c@.subrange(0, 5)[3] == c@[3]);
                assert(c@.subrange(0, 5)[4] == c@[4]);
            }
        }
        return false;
    }
    assert(c@.subrange(0, 5) =~= "video"@);
    let mut i: usize = 5;
    while i < c.len()
        invariant
            c@ == name@,
            5 <= i <= c@.len(),
            forall|k: int| 5 <= k < i ==> is_ascii_digit(#[trigger] c@[k]),
        decreases c@.len() - i,
    {
        if !('0' <= c[i] && c[i] <= '9') {
            return false;
        }
        i = i + 1;
    }
    true
}

/// The value of a run of decimal digits.
pub open spec fn digits_value(s: Seq<char>) -> nat
    decreases s.len(),
{
    if s.len() == 0 {
        0
    } else {
        digits_value(s.drop_last()) * 10 + ((s.last() as int) - ('0' as int)) as nat
    }
}

/// `s` without one leading `+`.
pub open spec fn unsigned_part(s: Seq<char>) -> Seq<char> {
    if s.len() > 0 && s[0] == '+' {
        s.drop_first()
    } else {
        s
    }
}

pub open spec fn all_digits(d: Seq<char>) -> bool {
    forall|i: int| 0 <= i < d.len() ==> is_ascii_digit(#[trigger] d[i])
}

/// `str::parse::<u32>` on `s`: an optional `+`, then one or more ASCII
/// digits, whose value fits.
pub open spec fn spec_parse_u32(s: Seq<char>) -> Option<u32> {
    let d = unsigned_part(s);
    if d.len() > 0 && all_digits(d) && digits_value(d) <= u32::MAX {
        Some(digits_value(d) as u32)
    } else {
        None
    }
}

proof fn lemma_digits_value_push(s: Seq<char>, c: char)
    requires
        is_ascii_digit(c),
    ensures
        digits_value(s.push(c)) == digits_value(s) * 10 + ((c as int) - ('0' as int)),
{
    assert(s.push(c).drop_last() =~= s);
}

proof fn lemma_digits_value_monotone(s: Seq<char>, t: Seq<char>)
    requires
        forall|i: int| 0 <= i < t.len() ==> is_ascii_digit(#[trigger] t[i]),
    ensures
        digits_value(s + t) >= digits_value(s),
    decreases t.len(),
{
    if t.len() > 0 {
        let t0 = t.drop_last();
        assert((s + t).drop_last() =~= s + t0);
        assert forall|i: int| 0 <= i < t0.len() implies is_ascii_digit(#[trigger] t0[i]) by {
            assert(t0[i] == t[i]);
        }
        lemma_digits_value_monotone(s, t0);
        assert((s + t).last() == t.last());
        assert(is_ascii_digit(t[t.len() - 1]));
    } else {
        assert(s + t =~= s);
    }
}

/// Parse a `u32` as `str::parse::<u32>` does.
pub fn parse_u32(s: &str) -> (r: Option<u32>)
    ensures
        r == spec_parse_u32(s@),
{
    let c = chars_of(s);
    let start: usize = if c.len() > 0 && c[0] == '+' {
        1
    } else {
        0
    };
    let ghost d = unsigned_part(c@);
    assert(d =~= c@.subrange(start as int, c@.len() as int));
    if start == c.len() {
        return None;
    }
    let mut v: u64 = 0;
    let mut i: usize = start;
    while i < c.len()
        invariant
            c@ == s@,
            d == c@.subrange(start as int, c@.len() as int),
            d == unsigned_part(s@),
            start <= i <= c@.len(),
            forall|k: int| start <= k < i ==> is_ascii_digit(#[trigger] c@[k]),
            v == digits_value(c@.subrange(start as int, i as int)),
            v <= u32::MAX,
        decreases c@.len() - i,
    {
        let ch = c[i];
        if !('0' <= ch && ch <= '9') {
            proof {
                assert(d[i - start] == ch);
                assert(!is_ascii_digit(d[i - start]));
                assert(!all_digits(d));
            }
            return None;
        }
        let digit: u64 = (ch as u32 - '0' as u32) as u64;
        proof {
            assert(c@.subrange(start as int, i + 1) =~= c@.subrange(start as int, i as int).push(ch));
            lemma_digits_value_push(c@.subrange(start as int, i as int), ch);
        }
        let nv: u64 = v * 10 + digit;
        if nv > u32::MAX as u64 {
            proof {
                let rest = c@.subrange(i + 1, c@.len() as int);
                if all_digits(d) {
                    assert forall|k: int| 0 <= k < rest.len() implies is_ascii_digit(#[trigger] rest[k]) by {
                        assert(rest[k] == d[k + i + 1 - start]);
                    }
                    lemma_digits_value_monotone(c@.subrange(start as int, i + 1), rest);
                    assert(c@.subrange(start as int, i + 1) + rest =~= d);
                }
            }
            return None;
        }
        v = nv;
        i = i + 1;
    }
    proof {
        assert(c@.subrange(start as int, i as int) =~= d);
        assert forall|k: int| 0 <= k < d.len() implies is_ascii_digit(#[trigger] d[k]) by {
            assert(d[k] == c@[k + start]);
        }
    }
    Some(v as u32)
}

/// The order key of a video node: the number after `video`, or `u32::MAX`
/// when there is none, so `video2` sorts before `video10`.
pub open spec fn spec_node_key(name: Seq<char>) -> u32 {
    if name.len() >= 5 {
        match spec_parse_u32(name.subrange(5, name.len() as int)) {
            Some(n) => n,
            None => u32::MAX,
        }
    } else {
        u32::MAX
    }
}

fn suffix_from_5(s: &str) -> (r: String)
    requires
        s@.len() >= 5,
    ensures
        r@ == s@.subrange(5, s@.len() as int),
{
    let c = chars_of(s);
    let mut v: Vec<char> = Vec::new();
    let mut i: usize = 5;
    while i < c.len()
        invariant
            c@ == s@,
            5 <= i <= c@.len(),
            v@ == c@.subrange(5, i as int),
        decreases c@.len() - i,
    {
        v.push(c[i]);
        i = i + 1;
        assert(v@ =~= c@.subrange(5, i as int));
    }
    crate::text::string_from_chars(&v)
}

pub fn node_sort_key(name: &str) -> (k: u32)
    ensures
        k == spec_node_key(name@),
{
    if name.unicode_len() < 5 {
        return u32::MAX;
    }
    let rest = suffix_from_5(name);
    match parse_u32(rest.as_str()) {
        Some(n) => n,
        None => u32::MAX,
    }
}

pub open spec fn nodes_sorted(s: Seq<String>) -> bool {
    forall|i: int, j: int| 0 <= i < j < s.len() ==> spec_node_key((#[trigger] s[i])@) <= spec_node_key((#[trigger] s[j])@)
}

/// Whether a name carries the number `k`.
pub open spec fn key_is(k: u32) -> spec_fn(String) -> bool {
    |s: String| spec_node_key(s@) == k
}

/// The names in `s` that carry the number `k`, in their order in `s`.
pub open spec fn with_key(s: Seq<String>, k: u32) -> Seq<String> {
    s.filter(key_is(k))
}

/// Putting `x` in front of every name with a larger number, and after the
/// rest, makes it the last of the names with its own number.
proof fn lemma_insert_keeps_groups(before: Seq<String>, p: int, x: String, k: u32)
    requires
        0 <= p <= before.len(),
        forall|i: int| p <= i < before.len() ==> spec_node_key(x@) < spec_node_key(#[trigger] before[i]@),
    ensures
        with_key(before.insert(p, x), k) == with_key(before.push(x), k),
{
    let pred = key_is(k);
    let a = before.subrange(0, p);
    let b = before.subrange(p, before.len() as int);
    let e = Seq::<String>::empty();
    assert(before.insert(p, x) =~= (a + e.push(x)) + b);
    assert(before =~= a + b);
    Seq::filter_distributes_over_add(a + e.push(x), b, pred);
    Seq::filter_distributes_over_add(a, e.push(x), pred);
    Seq::filter_distributes_over_add(a, b, pred);
    e.lemma_filter_push(x, pred);
    before.lemma_filter_push(x, pred);
    e.lemma_filter_len(pred);
    assert(e.filter(pred) =~= e);
    if spec_node_key(x@) == k {
        assert forall|i: int| 0 <= i < b.len() implies !pred(#[trigger] b[i]) by {
            assert(b[i] == before[p + i]);
        }
        assert(b.all(|y: String| !pred(y)));
        b.lemma_all_neg_filter_empty(pred);
        assert(b.filter(pred) =~= e);
        assert(a.filter(pred) + b.filter(pred) =~= a.filter(pred));
        assert(a.filter(pred) + e.filter(pred).push(x) =~= a.filter(pred).push(x));
    } else {
        assert(a.filter(pred) + e.filter(pred) =~= a.filter(pred));
    }
}

/// Order node names by their number, as a stable sort: names with equal
/// numbers keep their original order.
pub fn sort_video_nodes(nodes: Vec<String>) -> (out: Vec<String>)
    ensures
        out@.len() == nodes@.len(),
        nodes_sorted(out@),
        forall|k: u32| #[trigger] with_key(out@, k) == with_key(nodes@, k),
{
    let mut out: Vec<String> = Vec::new();
    let mut keys: Vec<u32> = Vec::new();
    let mut rest = nodes;
    let ghost orig = rest@;
    let mut taken: usize = 0;
    proof {
        assert forall|k: u32| #[trigger] with_key(out@, k) == with_key(orig.subrange(0, 0), k) by {
            assert(out@ =~= orig.subrange(0, 0));
        }
    }
    while rest.len() > 0
        invariant
            out@.len() == keys@.len(),
            out@.len() + rest@.len() == orig.len(),
            taken == out@.len(),
            rest@ == orig.subrange(taken as int, orig.len() as int),
            forall|k: int| 0 <= k < keys@.len() ==> keys@[k] == spec_node_key(#[trigger] out@[k]@),
            nodes_sorted(out@),
            forall|k: u32| #[trigger] with_key(out@, k) == with_key(orig.subrange(0, taken as int), k),
        decreases rest@.len(),
    {
        let x = rest.remove(0);
        let kx = node_sort_key(x.as_str());
        let mut p: usize = out.len();
        while p > 0 && keys[p - 1] > kx
            invariant
                p <= out@.len(),
                out@.len() == keys@.len(),
                forall|k: int| 0 <= k < keys@.len() ==> keys@[k] == spec_node_key(#[trigger] out@[k]@),
                forall|k: int| p <= k < out@.len() ==> kx < #[trigger] keys@[k],
            decreases p,
        {
            p = p - 1;
        }
        let ghost before = out@;
        let ghost kbefore = keys@;
        out.insert(p, x);
        keys.insert(p, kx);
        proof {
            let after = out@;
            assert forall|k: int| 0 <= k < keys@.len() implies keys@[k] == spec_node_key(#[trigger] out@[k]@) by {
                if k < p {
                    assert(keys@[k] == kbefore[k] && out@[k] == before[k]);
                } else if k > p {
                    assert(keys@[k] == kbefore[k - 1] && out@[k] == before[k - 1]);
                }
            }
            assert forall|i: int, j: int| 0 <= i < j < after.len() implies spec_node_key((#[trigger] after[i])@) <= spec_node_key((#[trigger] after[j])@) by {
                let ki = keys@[i];
                let kj = keys@[j];
                assert(ki == spec_node_key(after[i]@));
                assert(kj == spec_node_key(after[j]@));
                if i < p && j < p {
                    assert(before[i] == after[i] && before[j] == after[j]);
                } else if i < p && j == p {
                    if p > 0 {
                        assert(kbefore[p - 1] <= kx);
                        if i < p - 1 {
                            assert(spec_node_key(before[i]@) <= spec_node_key(before[p - 1]@));
                        }
                    }
                } else if i < p && j > p {
                    assert(after[j] == before[j - 1]);
                    assert(spec_node_key(before[i]@) <= spec_node_key(before[j - 1]@));
                } else if i == p {
                    assert(after[j] == before[j - 1]);
                    assert(kx < kbefore[j - 1]);
                } else {
                    assert(after[i] == before[i - 1] && after[j] == before[j - 1]);
                    assert(spec_node_key(before[i - 1]@) <= spec_node_key(before[j - 1]@));
                }
            }
            let prefix = orig.subrange(0, taken as int);
            let prefix2 = orig.subrange(0, taken + 1);
            assert(prefix2 =~= prefix.push(x));
            assert forall|i: int| p <= i < before.len() implies spec_node_key(x@) < spec_node_key(#[trigger] before[i]@) by {
                assert(kbefore[i] == spec_node_key(before[i]@));
            }
            assert forall|k: u32| #[trigger] with_key(after, k) == with_key(prefix2, k) by {
                assert(with_key(before, k) == with_key(prefix, k));
                lemma_insert_keeps_groups(before, p as int, x, k);
                before.lemma_filter_push(x, key_is(k));
                prefix.lemma_filter_push(x, key_is(k));
            }
            assert(rest@ =~= orig.subrange(taken + 1, orig.len() as int));
        }
        taken = out.len();
    }
    proof {
        assert(orig.subrange(0, taken as int) =~= orig);
    }
    out
}

/// Whether a device can capture: the per-node capabilities when the driver
/// reports them (`V4L2_CAP_DEVICE_CAPS`), else the whole device's.
pub fn effective_caps(capabilities: u32, device_caps: u32) -> (c: u32)
    ensures
        c == if capabilities & V4L2_CAP_DEVICE_CAPS != 0 {
            device_caps
        } else {
            capabilities
        },
{
    if capabilities & V4L2_CAP_DEVICE_CAPS != 0 {
        device_caps
    } else {
        capabilities
    }
}

/// Whether a device can capture video: its effective capabilities carry
/// `V4L2_CAP_VIDEO_CAPTURE` (metadata and output nodes do not).
pub fn is_capture_device(capabilities: u32, device_caps: u32) -> (b: bool)
    ensures
        b == ((if capabilities & V4L2_CAP_DEVICE_CAPS != 0 {
            device_caps
        } else {
            capabilities
        }) & V4L2_CAP_VIDEO_CAPTURE != 0),
{
    effective_caps(capabilities, device_caps) & V4L2_CAP_VIDEO_CAPTURE != 0
}

/// The frame rate of the first frame interval a driver reports for a mode:
/// `den / num` when the query succeeded with a discrete interval of positive
/// terms, else 30.
pub fn fps_from_interval(query_ok: bool, interval_type: u32, num: u32, den: u32) -> (fps: u32)
    ensures
        fps == if query_ok && interval_type == V4L2_FRMIVAL_TYPE_DISCRETE && num > 0 && den > 0 {
            den / num
        } else {
            30
        },
{
    if query_ok && interval_type == V4L2_FRMIVAL_TYPE_DISCRETE && num > 0 && den > 0 {
        den / num
    } else {
        30
    }
}

/// What `String::from_utf8_lossy` gives for a byte string.
pub uninterp spec fn utf8_lossy(bytes: Seq<u8>) -> Seq<char>;

/// `String::from_utf8_lossy(bytes).into_owned()`. Besides naming the result,
/// the contract states what the std documentation makes plain: ASCII bytes
/// decode one for one.
#[verifier::external_body]
fn from_utf8_lossy(bytes: &[u8]) -> (s: String)
    ensures
        s@ == utf8_lossy(bytes@),
        (forall|i: int| 0 <= i < bytes@.len() ==> #[trigger] bytes@[i] < 0x80) ==> s@.len() == bytes@.len()
            && forall|i: int| 0 <= i < bytes@.len() ==> #[trigger] s@[i] == (bytes@[i] as char),
{
    String::from_utf8_lossy(bytes).into_owned()
}

/// The bytes before the first NUL (all of them when there is none).
pub open spec fn before_nul(bytes: Seq<u8>) -> Seq<u8>
    decreases bytes.len(),
{
    if bytes.len() == 0 {
        bytes
    } else if bytes[0] == 0 {
        Seq::empty()
    } else {
        seq![bytes[0]] + before_nul(bytes.drop_first())
    }
}

/// A fixed-size C string field (a driver or card name) as text.
pub fn nul_trimmed(bytes: &[u8]) -> (s: String)
    ensures
        s@ == utf8_lossy(before_nul(bytes@)),
{
    let mut end: usize = 0;
    assert(bytes@.subrange(0, bytes@.len() as int) =~= bytes@);
    assert(bytes@.subrange(0, 0) + bytes@ =~= bytes@);
    while end < bytes.len() && bytes[end] != 0
        invariant
            end <= bytes@.len(),
            forall|k: int| 0 <= k < end ==> bytes@[k] != 0,
            before_nul(bytes@) == bytes@.subrange(0, end as int) + before_nul(bytes@.subrange(end as int, bytes@.len() as int)),
        decreases bytes@.len() - end,
    {
        proof {
            let rest = bytes@.subrange(end as int, bytes@.len() as int);
            assert(rest.drop_first() =~= bytes@.subrange(end + 1, bytes@.len() as int));
            assert(bytes@.subrange(0, end + 1) =~= bytes@.subrange(0, end as int) + seq![bytes@[end as int]]);
        }
        end = end + 1;
    }
    let mut head: Vec<u8> = Vec::new();
    let mut i: usize = 0;
    while i < end
        invariant
            end <= bytes@.len(),
            i <= end,
            head@ == bytes@.subrange(0, i as int),
        decreases end - i,
    {
        head.push(bytes[i]);
        i = i + 1;
        assert(head@ =~= bytes@.subrange(0, i as int));
    }
    proof {
        let rest = bytes@.subrange(end as int, bytes@.len() as int);
        if end < bytes@.len() {
            assert(rest[0] == 0);
        }
        assert(before_nul(rest) =~= Seq::<u8>::empty());
        assert(before_nul(bytes@) =~= head@);
    }
    from_utf8_lossy(head.as_slice())
}

/// The name a capture node is listed under: the card name, or the node's own
/// name when the card name is empty.
pub fn device_name(card: String, node: &str) -> (n: String)
    ensures
        n@ == if card@.len() == 0 {
            node@
        } else {
            card@
        },
{
    if card.as_str().unicode_len() == 0 {
        string_of(node)
    } else {
        card
    }
}

/// Add a mode to a capability list unless it is already there.
pub fn push_format(formats: &mut Vec<FormatDescriptor>, f: FormatDescriptor)
    ensures
        old(formats)@.contains(f) ==> final(formats)@ == old(formats)@,
        !old(formats)@.contains(f) ==> final(formats)@ == old(formats)@.push(f),
{
    let mut i: usize = 0;
    while i < formats.len()
        invariant
            i <= formats@.len(),
            formats@ == old(formats)@,
            forall|k: int| 0 <= k < i ==> formats@[k] != f,
        decreases formats@.len() - i,
    {
        if formats[i] == f {
            assert(formats@.contains(f));
            return;
        }
        i = i + 1;
    }
    assert(!formats@.contains(f));
    formats.push(f);
}

/// The descriptor recorded for a stepwise or continuous size range: its
/// maximum (`max_width` and `max_height` of the driver's reply) at 30 fps.
pub fn stepwise_format(max_width: u32, max_height: u32, pixel_format: PixelFormat) -> (f: FormatDescriptor)
    ensures
        f == (FormatDescriptor { width: max_width, height: max_height, fps: 30, pixel_format }),
{
    FormatDescriptor { width: max_width, height: max_height, fps: 30, pixel_format }
}

/// The V4L2 backend: enumeration and capability probing on Linux.
pub struct V4l2UvcBackend;

impl V4l2UvcBackend {
    pub fn new() -> (b: V4l2UvcBackend) {
        V4l2UvcBackend
    }
}

// ---- Media Foundation ---------------------------------------------------------

pub const MF_VIDEO_FORMAT_NV12: u128 = 0x3231564e_0000_0010_8000_00aa00389b71;
pub const MF_VIDEO_FORMAT_YUY2: u128 = 0x32595559_0000_0010_8000_00aa00389b71;
pub const MF_VIDEO_FORMAT_RGB24: u128 = 0x00000014_0000_0010_8000_00aa00389b71;
pub const MF_VIDEO_FORMAT_RGB32: u128 = 0x00000016_0000_0010_8000_00aa00389b71;

pub open spec fn spec_subtype(guid: u128) -> Option<PixelFormat> {
    if guid == MF_VIDEO_FORMAT_NV12 {
        Some(PixelFormat::Nv12)
    } else if guid == MF_VIDEO_FORMAT_YUY2 {
        Some(PixelFormat::Yuyv)
    } else if guid == MF_VIDEO_FORMAT_RGB24 {
        Some(PixelFormat::Rgb24)
    } else if guid == MF_VIDEO_FORMAT_RGB32 {
        Some(PixelFormat::Bgr24)
    } else {
        None
    }
}

/// A Media Foundation video subtype (as a 128-bit GUID) to pixel format.
pub fn subtype_to_pixel_format(guid: u128) -> (r: Option<PixelFormat>)
    ensures
        r == spec_subtype(guid),
{
    if guid == MF_VIDEO_FORMAT_NV12 {
        Some(PixelFormat::Nv12)
    } else if guid == MF_VIDEO_FORMAT_YUY2 {
        Some(PixelFormat::Yuyv)
    } else if guid == MF_VIDEO_FORMAT_RGB24 {
        Some(PixelFormat::Rgb24)
    } else if guid == MF_VIDEO_FORMAT_RGB32 {
        Some(PixelFormat::Bgr24)
    } else {
        None
    }
}

/// A media type's format: the subtype must be known; the frame size packs
/// width (high 32 bits) and height (low); the frame rate packs numerator and
/// denominator the same way, and gives `num / den` fps (30 when absent or the
/// denominator is 0).
pub fn media_format(subtype: u128, frame_size: u64, frame_rate: Option<u64>) -> (r: Option<FormatDescriptor>)
    ensures
        match r {
            Some(f) => spec_subtype(subtype) == Some(f.pixel_format) && f.width == frame_size / 0x1_0000_0000
                && f.height == frame_size % 0x1_0000_0000 && f.fps == match frame_rate {
                Some(fr) => if fr % 0x1_0000_0000 > 0 {
                    ((fr / 0x1_0000_0000) / (fr % 0x1_0000_0000)) as u32
                } else {
                    30
                },
                None => 30,
            },
            None => spec_subtype(subtype) is None,
        },
{
    let pixel_format = match subtype_to_pixel_format(subtype) {
        Some(p) => p,
        None => return None,
    };
    let width: u32 = (frame_size >> 32) as u32;
    let height: u32 = (frame_size & 0xFFFF_FFFF) as u32;
    assert((frame_size >> 32) == frame_size / 0x1_0000_0000 && (frame_size & 0xFFFF_FFFF) == frame_size % 0x1_0000_0000) by (bit_vector);
    let fps: u32 = match frame_rate {
        Some(fr) => {
            let num: u32 = (fr >> 32) as u32;
            let den: u32 = (fr & 0xFFFF_FFFF) as u32;
            assert((fr >> 32) == fr / 0x1_0000_0000 && (fr & 0xFFFF_FFFF) == fr % 0x1_0000_0000) by (bit_vector);
            if den > 0 {
                num / den
            } else {
                30
            }
        },
        None => 30,
    };
    Some(FormatDescriptor { width, height, fps, pixel_format })
}

/// The entry for the `index`th camera Media Foundation lists: its friendly
/// name (else `Camera <index>`) and its symbolic link as a stable id (else
/// `vidcap-<index>`).
pub fn wmf_device_entry(index: usize, name: Option<String>, link: Option<String>) -> (d: DeviceInfo)
    ensures
        d.name@ == match name {
            Some(n) => n@,
            None => "Camera "@ + decimal(index as nat),
        },
        d.id.0@ == match link {
            Some(l) => l@,
            None => "vidcap-"@ + decimal(index as nat),
        },
{
    let n = match name {
        Some(n) => n,
        None => {
            let mut s = string_of("Camera ");
            push_decimal(&mut s, index as u64);
            s
        },
    };
    let id = match link {
        Some(l) => l,
        None => {
            let mut s = string_of("vidcap-");
            push_decimal(&mut s, index as u64);
            s
        },
    };
    DeviceInfo { id: DeviceId(id), name: n }
}

/// The entry the Media Foundation capture backend lists for its `index`th
/// camera: its friendly name (else `Unknown Device <index>`) and its symbolic
/// link (else `wmf-<index>`).
pub fn wmf_backend_device_entry(index: usize, name: Option<String>, link: Option<String>) -> (d: DeviceInfo)
    ensures
        d.name@ == match name {
            Some(n) => n@,
            None => "Unknown Device "@ + decimal(index as nat),
        },
        d.id.0@ == match link {
            Some(l) => l@,
            None => "wmf-"@ + decimal(index as nat),
        },
{
    let n = match name {
        Some(n) => n,
        None => {
            let mut s = string_of("Unknown Device ");
            push_decimal(&mut s, index as u64);
            s
        },
    };
    let id = match link {
        Some(l) => l,
        None => {
            let mut s = string_of("wmf-");
            push_decimal(&mut s, index as u64);
            s
        },
    };
    DeviceInfo { id: DeviceId(id), name: n }
}

/// The mode the Media Foundation capture backend assumes for a device whose
/// current media type names no format it knows.
pub open spec fn wmf_default_mode() -> FormatDescriptor {
    FormatDescriptor { width: 640, height: 480, fps: 30, pixel_format: PixelFormat::Bgr24 }
}

/// The Media Foundation capture backend's record of its source reader: which
/// device it was opened on and the mode that device delivers.
pub struct WmfSession {
    pub device_id: Option<String>,
    pub current_width: u32,
    pub current_height: u32,
    pub current_format: PixelFormat,
}

/// `id` names the device the reader was opened on.
pub open spec fn wmf_is_open(s: &WmfSession, id: &DeviceId) -> bool {
    s.device_id matches Some(d) && d@ == id.0@
}

impl WmfSession {
    pub fn new() -> (s: WmfSession)
        ensures
            s.device_id is None,
            s.current_width == 0,
            s.current_height == 0,
            s.current_format == PixelFormat::Bgr24,
    {
        WmfSession { device_id: None, current_width: 0, current_height: 0, current_format: PixelFormat::Bgr24 }
    }

    /// A reader was opened on `id`, whose current media type gives `mode`
    /// (`None` when it names no known format: the default mode is assumed).
    pub fn opened(&mut self, id: &DeviceId, mode: Option<FormatDescriptor>)
        ensures
            wmf_is_open(final(self), id),
            ({
                let m = match mode {
                    Some(f) => f,
                    None => wmf_default_mode(),
                };
                &&& final(self).current_width == m.width
                &&& final(self).current_height == m.height
                &&& final(self).current_format == m.pixel_format
            }),
    {
        let m = match mode {
            Some(f) => f,
            None => FormatDescriptor { width: 640, height: 480, fps: 30, pixel_format: PixelFormat::Bgr24 },
        };
        self.device_id = Some(string_of(id.0.as_str()));
        self.current_width = m.width;
        self.current_height = m.height;
        self.current_format = m.pixel_format;
    }

    /// Reading from `id` is allowed only on the device the reader was opened on.
    pub fn check_open(&self, id: &DeviceId) -> (r: Result<(), HalError>)
        ensures
            r is Ok <==> wmf_is_open(self, id),
            r matches Err(e) ==> e == HalError::DeviceNotOpen,
    {
        match &self.device_id {
            Some(d) => {
                if str_eq(d.as_str(), id.0.as_str()) {
                    Ok(())
                } else {
                    Err(HalError::DeviceNotOpen)
                }
            },
            None => Err(HalError::DeviceNotOpen),
        }
    }

    /// Close the reader on `id`; refused unless it is the open device.
    pub fn close(&mut self, id: &DeviceId) -> (r: Result<(), HalError>)
        ensures
            r is Ok <==> wmf_is_open(old(self), id),
            r matches Err(e) ==> e == HalError::DeviceNotOpen && final(self).device_id == old(self).device_id,
            r is Ok ==> final(self).device_id is None,
            final(self).current_width == old(self).current_width,
            final(self).current_height == old(self).current_height,
            final(self).current_format == old(self).current_format,
    {
        let r = self.check_open(id);
        if r.is_ok() {
            self.device_id = None;
        }
        r
    }
}

/// Camera enumeration through Media Foundation on Windows.
pub struct WmfUvcBackend;

impl WmfUvcBackend {
    pub fn new() -> (b: WmfUvcBackend) {
        WmfUvcBackend
    }
}

// ---- hotplug ----------------------------------------------------------------

pub struct HotplugEvent {
    pub device: DeviceInfo,
    pub connected: bool,
}

/// Watches for cameras arriving and leaving. It holds no state yet: the
/// platform notifications it will watch are not wired.
pub struct HotplugMonitor {
    _private: (),
}

impl HotplugMonitor {
    pub fn new() -> (m: HotplugMonitor) {
        HotplugMonitor { _private: () }
    }
}


// ---- the synthetic camera -----------------------------------------------------

/// The synthetic camera backend's state: one device, `mock-0` ("Mock
/// Camera"), with one mode (640x480 RGB24 at 30 fps) and one control
/// (Brightness, 0..=255, default 128). Which devices are open, and the values
/// written to controls, are remembered.
pub struct MockUvcBackend {
    open_set: Vec<String>,
    control_map: Vec<(String, u32, i64)>,
}

pub struct MockUvcView {
    pub open: Set<Seq<char>>,
    pub controls: Map<(Seq<char>, u32), i64>,
}

pub open spec fn open_view(s: Seq<String>) -> Set<Seq<char>> {
    Set::new(|k: Seq<char>| exists|i: int| 0 <= i < s.len() && #[trigger] s[i]@ == k)
}

pub open spec fn ctrl_key(e: (String, u32, i64)) -> (Seq<char>, u32) {
    (e.0@, e.1)
}

pub open spec fn ctrl_index(s: Seq<(String, u32, i64)>, k: (Seq<char>, u32)) -> int {
    choose|i: int| 0 <= i < s.len() && #[trigger] ctrl_key(s[i]) == k
}

pub open spec fn ctrl_view(s: Seq<(String, u32, i64)>) -> Map<(Seq<char>, u32), i64> {
    Map::new(
        |k: (Seq<char>, u32)| exists|i: int| 0 <= i < s.len() && #[trigger] ctrl_key(s[i]) == k,
        |k: (Seq<char>, u32)| s[ctrl_index(s, k)].2,
    )
}

impl View for MockUvcBackend {
    type V = MockUvcView;

    closed spec fn view(&self) -> MockUvcView {
        MockUvcView { open: open_view(self.open_set@), controls: ctrl_view(self.control_map@) }
    }
}

/// The mock's one device id.
pub open spec fn mock_id() -> Seq<char> {
    "mock-0"@
}

pub open spec fn hal_err(e: HalError) -> crate::error::HalErrorView {
    e@
}

impl MockUvcBackend {
    /// No device is open twice, no control is recorded twice.
    pub closed spec fn wf(&self) -> bool {
        &&& forall|i: int, j: int| 0 <= i < j < self.open_set@.len() ==> (#[trigger] self.open_set@[i])@ != (#[trigger] self.open_set@[j])@
        &&& forall|i: int, j: int| 0 <= i < j < self.control_map@.len() ==> ctrl_key(#[trigger] self.control_map@[i]) != ctrl_key(#[trigger] self.control_map@[j])
    }

    pub fn new() -> (m: MockUvcBackend)
        ensures
            m.wf(),
            m@.open == Set::<Seq<char>>::empty(),
            m@.controls == Map::<(Seq<char>, u32), i64>::empty(),
    {
        let m = MockUvcBackend { open_set: Vec::new(), control_map: Vec::new() };
        assert(open_view(m.open_set@) =~= Set::<Seq<char>>::empty());
        assert(ctrl_view(m.control_map@) =~= Map::<(Seq<char>, u32), i64>::empty());
        m
    }

    pub fn enumerate_devices(&self) -> (v: Vec<DeviceInfo>)
        ensures
            v@.len() == 1,
            v@[0].id.0@ == mock_id(),
            v@[0].name@ == "Mock Camera"@,
    {
        let mut v: Vec<DeviceInfo> = Vec::new();
        v.push(DeviceInfo { id: DeviceId(string_of("mock-0")), name: string_of("Mock Camera") });
        v
    }

    pub fn probe_capabilities(&self, id: &DeviceId) -> (r: Result<DeviceCapabilities, HalError>)
        ensures
            id.0@ == mock_id() ==> (r matches Ok(c) && c.formats@ == seq![FormatDescriptor { width: 640, height: 480, fps: 30, pixel_format: PixelFormat::Rgb24 }]),
            id.0@ != mock_id() ==> r matches Err(HalError::DeviceNotFound),
    {
        if !str_eq(id.0.as_str(), "mock-0") {
            return Err(HalError::DeviceNotFound);
        }
        let mut formats: Vec<FormatDescriptor> = Vec::new();
        formats.push(FormatDescriptor { width: 640, height: 480, fps: 30, pixel_format: PixelFormat::Rgb24 });
        Ok(DeviceCapabilities { formats })
    }

    fn find_open(&self, id: &str) -> (r: Option<usize>)
        ensures
            match r {
                Some(i) => i < self.open_set@.len() && self.open_set@[i as int]@ == id@,
                None => !open_view(self.open_set@).contains(id@),
            },
    {
        let mut i: usize = 0;
        while i < self.open_set.len()
            invariant
                i <= self.open_set@.len(),
                forall|k: int| 0 <= k < i ==> (#[trigger] self.open_set@[k])@ != id@,
            decreases self.open_set@.len() - i,
        {
            if str_eq(self.open_set[i].as_str(), id) {
                return Some(i);
            }
            i = i + 1;
        }
        None
    }

    pub fn is_open(&self, id: &DeviceId) -> (b: bool)
        ensures
            b == self@.open.contains(id.0@),
    {
        match self.find_open(id.0.as_str()) {
            Some(i) => {
                assert(self.open_set@[i as int]@ == id.0@);
                true
            },
            None => false,
        }
    }

    /// Open a device; opening one that is open is refused.
    pub fn open_device(&mut self, id: &DeviceId) -> (r: Result<(), HalError>)
        requires
            old(self).wf(),
        ensures
            final(self).wf(),
            old(self)@.open.contains(id.0@) ==> (r matches Err(HalError::DeviceAlreadyOpen)) && final(self)@ == old(self)@,
            !old(self)@.open.contains(id.0@) ==> r is Ok && final(self)@.open == old(self)@.open.insert(id.0@) && final(self)@.controls == old(self)@.controls,
    {
        match self.find_open(id.0.as_str()) {
            Some(i) => {
                assert(self.open_set@[i as int]@ == id.0@);
                Err(HalError::DeviceAlreadyOpen)
            },
            None => {
                let ghost before = self.open_set@;
                self.open_set.push(string_of(id.0.as_str()));
                proof {
                    let after = self.open_set@;
                    assert forall|k: Seq<char>| #[trigger] open_view(after).contains(k) <==> open_view(before).insert(id.0@).contains(k) by {
                        if open_view(after).contains(k) {
                            let i = choose|i: int| 0 <= i < after.len() && #[trigger] after[i]@ == k;
                            if i < before.len() {
                                assert(before[i] == after[i]);
                            }
                        }
                        if open_view(before).contains(k) {
                            let i = choose|i: int| 0 <= i < before.len() && #[trigger] before[i]@ == k;
                            assert(after[i] == before[i]);
                        }
                        if k == id.0@ {
                            assert(after[before.len() as int]@ == k);
                        }
                    }
                    assert(open_view(after) =~= open_view(before).insert(id.0@));
                    assert forall|i: int, j: int| 0 <= i < j < after.len() implies (#[trigger] after[i])@ != (#[trigger] after[j])@ by {
                        if j == before.len() {
                            assert(after[i] == before[i]);
                            assert(open_view(before).contains(before[i]@));
                        } else {
                            assert(after[i] == before[i] && after[j] == before[j]);
                        }
                    }
                }
                Ok(())
            },
        }
    }

    /// Close a device; closing one that is not open is refused.
    pub fn close_device(&mut self, id: &DeviceId) -> (r: Result<(), HalError>)
        requires
            old(self).wf(),
        ensures
            final(self).wf(),
            !old(self)@.open.contains(id.0@) ==> (r matches Err(HalError::DeviceNotOpen)) && final(self)@ == old(self)@,
            old(self)@.open.contains(id.0@) ==> r is Ok && final(self)@.open == old(self)@.open.remove(id.0@) && final(self)@.controls == old(self)@.controls,
    {
        match self.find_open(id.0.as_str()) {
            None => Err(HalError::DeviceNotOpen),
            Some(i) => {
                let ghost before = self.open_set@;
                let _gone = self.open_set.remove(i);
                proof {
                    let after = self.open_set@;
                    assert(after =~= before.remove(i as int));
                    assert forall|k: Seq<char>| #[trigger] open_view(after).contains(k) <==> open_view(before).remove(id.0@).contains(k) by {
                        if open_view(after).contains(k) {
                            let j = choose|j: int| 0 <= j < after.len() && #[trigger] after[j]@ == k;
                            let j0 = if j < i { j } else { j + 1 };
                            assert(after[j] == before[j0]);
                            assert(before[j0]@ != before[i as int]@);
                        }
                        if open_view(before).remove(id.0@).contains(k) {
                            let j = choose|j: int| 0 <= j < before.len() && #[trigger] before[j]@ == k;
                            assert(j != i);
                            if j < i {
                                assert(after[j] == before[j]);
                            } else {
                                assert(after[j - 1] == before[j]);
                            }
                        }
                    }
                    assert(open_view(after) =~= open_view(before).remove(id.0@));
                    assert forall|a: int, b: int| 0 <= a < b < after.len() implies (#[trigger] after[a])@ != (#[trigger] after[b])@ by {
                        let a0 = if a < i { a } else { a + 1 };
                        let b0 = if b < i { b } else { b + 1 };
                        assert(after[a] == before[a0] && after[b] == before[b0]);
                    }
                }
                Ok(())
            },
        }
    }

    /// A synthetic frame: all zero bytes, one RGB24 image of the device's mode.
    pub fn read_frame(&self, id: &DeviceId) -> (r: Result<Vec<u8>, HalError>)
        ensures
            !self@.open.contains(id.0@) ==> r matches Err(HalError::DeviceNotOpen),
            self@.open.contains(id.0@) && id.0@ != mock_id() ==> r matches Err(HalError::DeviceNotFound),
            self@.open.contains(id.0@) && id.0@ == mock_id() ==> (r matches Ok(v) && v@.len() == 640 * 480 * 3 && forall|i: int| 0 <= i < v@.len() ==> #[trigger] v@[i] == 0),
    {
        if !self.is_open(id) {
            return Err(HalError::DeviceNotOpen);
        }
        if !str_eq(id.0.as_str(), "mock-0") {
            return Err(HalError::DeviceNotFound);
        }
        let n: usize = 640 * 480 * 3;
        let mut v: Vec<u8> = Vec::new();
        let mut i: usize = 0;
        while i < n
            invariant
                i <= n,
                n == 640 * 480 * 3,
                v@.len() == i,
                forall|k: int| 0 <= k < i ==> #[trigger] v@[k] == 0,
            decreases n - i,
        {
            v.push(0);
            i = i + 1;
        }
        Ok(v)
    }

    pub fn list_controls(&self, id: &DeviceId) -> (r: Result<Vec<ControlCapabilityInfo>, HalError>)
        ensures
            id.0@ != mock_id() ==> r matches Err(HalError::DeviceNotFound),
            id.0@ == mock_id() ==> (r matches Ok(v) && v@.len() == 1 && v@[0]@ == crate::device::ControlInfoView {
                id: 1,
                name: "Brightness"@,
                min: 0,
                max: 255,
                step: 1,
                default: 128,
            }),
    {
        if !str_eq(id.0.as_str(), "mock-0") {
            return Err(HalError::DeviceNotFound);
        }
        let mut v: Vec<ControlCapabilityInfo> = Vec::new();
        v.push(ControlCapabilityInfo { id: 1, name: string_of("Brightness"), min: 0, max: 255, step: 1, default: 128 });
        Ok(v)
    }

    fn find_control(&self, id: &str, control_id: u32) -> (r: Option<usize>)
        ensures
            match r {
                Some(i) => i < self.control_map@.len() && ctrl_key(self.control_map@[i as int]) == (id@, control_id),
                None => !ctrl_view(self.control_map@).dom().contains((id@, control_id)),
            },
    {
        let mut i: usize = 0;
        while i < self.control_map.len()
            invariant
                i <= self.control_map@.len(),
                forall|k: int| 0 <= k < i ==> ctrl_key(#[trigger] self.control_map@[k]) != (id@, control_id),
            decreases self.control_map@.len() - i,
        {
            if self.control_map[i].1 == control_id && str_eq(self.control_map[i].0.as_str(), id) {
                return Some(i);
            }
            i = i + 1;
        }
        None
    }

    /// The last value written to a control, or 128 for one never written.
    pub fn get_control(&self, id: &DeviceId, control_id: u32) -> (v: i64)
        requires
            self.wf(),
        ensures
            v == if self@.controls.dom().contains((id.0@, control_id)) {
                self@.controls[(id.0@, control_id)]
            } else {
                128
            },
    {
        match self.find_control(id.0.as_str(), control_id) {
            Some(i) => {
                proof {
                    let s = self.control_map@;
                    let k = (id.0@, control_id);
                    assert(ctrl_key(s[i as int]) == k);
                    let j = ctrl_index(s, k);
                    if j != i {
                        if j < i {
                            assert(ctrl_key(s[j]) != ctrl_key(s[i as int]));
                        } else {
                            assert(ctrl_key(s[i as int]) != ctrl_key(s[j]));
                        }
                    }
                }
                self.control_map[i].2
            },
            None => 128,
        }
    }

    /// Record a control value for a device the mock knows.
    pub fn set_control(&mut self, id: &DeviceId, control_id: u32, value: i64) -> (r: Result<(), HalError>)
        requires
            old(self).wf(),
        ensures
            final(self).wf(),
            id.0@ != mock_id() ==> (r matches Err(HalError::DeviceNotFound)) && final(self)@ == old(self)@,
            id.0@ == mock_id() ==> r is Ok && final(self)@.controls == old(self)@.controls.insert((id.0@, control_id), value) && final(self)@.open == old(self)@.open,
    {
        if !str_eq(id.0.as_str(), "mock-0") {
            return Err(HalError::DeviceNotFound);
        }
        let ghost before = self.control_map@;
        let ghost k = (id.0@, control_id);
        match self.find_control(id.0.as_str(), control_id) {
            Some(i) => {
                let name = string_of(id.0.as_str());
                self.control_map.set(i, (name, control_id, value));
                proof {
                    let after = self.control_map@;
                    assert forall|a: int, b: int| 0 <= a < b < after.len() implies ctrl_key(#[trigger] after[a]) != ctrl_key(#[trigger] after[b]) by {
                        assert(ctrl_key(after[a]) == ctrl_key(before[a]));
                        assert(ctrl_key(after[b]) == ctrl_key(before[b]));
                    }
                    assert forall|kk: (Seq<char>, u32)| #[trigger] ctrl_view(after).dom().contains(kk) <==> ctrl_view(before).insert(k, value).dom().contains(kk) by {
                        if ctrl_view(after).dom().contains(kk) {
                            let j = choose|j: int| 0 <= j < after.len() && #[trigger] ctrl_key(after[j]) == kk;
                            assert(ctrl_key(before[j]) == kk);
                        }
                        if ctrl_view(before).dom().contains(kk) {
                            let j = choose|j: int| 0 <= j < before.len() && #[trigger] ctrl_key(before[j]) == kk;
                            assert(ctrl_key(after[j]) == kk);
                        }
                        if kk == k {
                            assert(ctrl_key(after[i as int]) == kk);
                        }
                    }
                    assert forall|kk: (Seq<char>, u32)| #[trigger] ctrl_view(after).dom().contains(kk) implies ctrl_view(after)[kk] == ctrl_view(before).insert(k, value)[kk] by {
                        let j = ctrl_index(after, kk);
                        let j2 = ctrl_index(before, kk);
                        if kk == k {
                            if j != i {
                                if j < i { assert(ctrl_key(after[j]) != ctrl_key(after[i as int])); } else { assert(ctrl_key(after[i as int]) != ctrl_key(after[j])); }
                            }
                        } else {
                            assert(ctrl_key(before[j]) == kk);
                            assert(ctrl_view(before).dom().contains(kk));
                            if j2 != j {
                                if j2 < j { assert(ctrl_key(before[j2]) != ctrl_key(before[j])); } else { assert(ctrl_key(before[j]) != ctrl_key(before[j2])); }
                            }
                            assert(j != i);
                            assert(after[j] == before[j]);
                        }
                    }
                    assert(ctrl_view(after) =~= ctrl_view(before).insert(k, value));
                }
            },
            None => {
                let name = string_of(id.0.as_str());
                self.control_map.push((name, control_id, value));
                proof {
                    let after = self.control_map@;
                    let n = before.len() as int;
                    assert forall|a: int, b: int| 0 <= a < b < after.len() implies ctrl_key(#[trigger] after[a]) != ctrl_key(#[trigger] after[b]) by {
                        assert(after[a] == before[a]);
                        if b == n {
                            if ctrl_key(before[a]) == k {
                                assert(ctrl_view(before).dom().contains(k));
                            }
                        } else {
                            assert(after[b] == before[b]);
                        }
                    }
                    assert forall|kk: (Seq<char>, u32)| #[trigger] ctrl_view(after).dom().contains(kk) <==> ctrl_view(before).insert(k, value).dom().contains(kk) by {
                        if ctrl_view(after).dom().contains(kk) {
                            let j = choose|j: int| 0 <= j < after.len() && #[trigger] ctrl_key(after[j]) == kk;
                            if j < n {
                                assert(after[j] == before[j]);
                            }
                        }
                        if ctrl_view(before).dom().contains(kk) {
                            let j = choose|j: int| 0 <= j < before.len() && #[trigger] ctrl_key(before[j]) == kk;
                            assert(after[j] == before[j]);
                        }
                        if kk == k {
                            assert(ctrl_key(after[n]) == kk);
                        }
                    }
                    assert forall|kk: (Seq<char>, u32)| #[trigger] ctrl_view(after).dom().contains(kk) implies ctrl_view(after)[kk] == ctrl_view(before).insert(k, value)[kk] by {
                        let j = ctrl_index(after, kk);
                        if kk == k {
                            if j != n {
                                assert(after[j] == before[j]);
                                assert(ctrl_view(before).dom().contains(k));
                            }
                        } else {
                            assert(j != n);
                            assert(after[j] == before[j]);
                            let j2 = ctrl_index(before, kk);
                            assert(ctrl_view(before).dom().contains(kk));
                            if j2 != j {
                                if j2 < j { assert(ctrl_key(before[j2]) != ctrl_key(before[j])); } else { assert(ctrl_key(before[j]) != ctrl_key(before[j2])); }
                            }
                        }
                    }
                    assert(ctrl_view(after) =~= ctrl_view(before).insert(k, value));
                }
            },
        }
        Ok(())
    }
}
} // verus!
