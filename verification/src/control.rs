//! Camera controls: a named vocabulary, and capabilities read from hardware.
//!
//! Control ids are platform-defined (V4L2 `V4L2_CID_*`, Windows
//! `IAMVideoProcAmp`/`IAMCameraControl`) and not in bijection, so controls are
//! handled by name and resolved against what the device reports at runtime.

use vstd::prelude::*;
use crate::device::{ControlCapabilityInfo, ControlInfoView};
use crate::text::{
    ascii_lower, char_is_ascii_alnum, char_to_ascii_lower, chars_eq_str, chars_of, decimal_int,
    is_ascii_alnum, push_decimal_i64, push_str, string_from_chars, string_of,
};

verus! {

// ---- name normalisation ---------------------------------------------------

/// Left-to-right pass over a driver name: ASCII letters and digits are kept
/// (lowercased), and each run of anything else becomes a single `_`, except
/// before the first kept character. The flag says whether the output so far
/// ends in a separator (or is empty).
pub open spec fn norm_fold(s: Seq<char>) -> (Seq<char>, bool)
    decreases s.len(),
{
    if s.len() == 0 {
        (Seq::empty(), true)
    } else {
        let (o, sep) = norm_fold(s.drop_last());
        let c = s.last();
        if is_ascii_alnum(c) {
            (o.push(ascii_lower(c)), false)
        } else if !sep {
            (o.push('_'), true)
        } else {
            (o, sep)
        }
    }
}

pub open spec fn trim_trailing_underscores(o: Seq<char>) -> Seq<char>
    decreases o.len(),
{
    if o.len() > 0 && o.last() == '_' {
        trim_trailing_underscores(o.drop_last())
    } else {
        o
    }
}

/// The comparable key of a driver-reported control name.
pub open spec fn spec_normalise(s: Seq<char>) -> Seq<char> {
    trim_trailing_underscores(norm_fold(s).0)
}

/// Characters a key may hold: lowercase ASCII letters, digits and `_`.
pub open spec fn key_char(c: char) -> bool {
    ('a' <= c && c <= 'z') || ('0' <= c && c <= '9') || c == '_'
}

/// A key in the making: key characters, no leading `_`, no `__`.
pub open spec fn is_key_prefix(s: Seq<char>) -> bool {
    &&& forall|i: int| 0 <= i < s.len() ==> key_char(#[trigger] s[i])
    &&& (s.len() > 0 ==> s[0] != '_')
    &&& forall|i: int| 0 <= i < s.len() - 1 ==> !(#[trigger] s[i] == '_' && s[i + 1] == '_')
}

/// A finished key: also no trailing `_`.
pub open spec fn is_key(s: Seq<char>) -> bool {
    &&& is_key_prefix(s)
    &&& (s.len() > 0 ==> s.last() != '_')
}

proof fn lemma_fold_shape(s: Seq<char>)
    ensures
        is_key_prefix(norm_fold(s).0),
        norm_fold(s).1 == (norm_fold(s).0.len() == 0 || norm_fold(s).0.last() == '_'),
    decreases s.len(),
{
    if s.len() > 0 {
        lemma_fold_shape(s.drop_last());
        let (o, sep) = norm_fold(s.drop_last());
        let c = s.last();
        if is_ascii_alnum(c) {
            let o2 = o.push(ascii_lower(c));
            assert forall|i: int| 0 <= i < o2.len() implies key_char(#[trigger] o2[i]) by {
                if i < o.len() {
                    assert(o2[i] == o[i]);
                }
            }
            assert forall|i: int| 0 <= i < o2.len() - 1 implies !(#[trigger] o2[i] == '_' && o2[i
                + 1] == '_') by {
                if i < o.len() - 1 {
                    assert(o2[i] == o[i] && o2[i + 1] == o[i + 1]);
                }
            }
        } else if !sep {
            let o2 = o.push('_');
            assert forall|i: int| 0 <= i < o2.len() implies key_char(#[trigger] o2[i]) by {
                if i < o.len() {
                    assert(o2[i] == o[i]);
                }
            }
            assert forall|i: int| 0 <= i < o2.len() - 1 implies !(#[trigger] o2[i] == '_' && o2[i
                + 1] == '_') by {
                if i < o.len() - 1 {
                    assert(o2[i] == o[i] && o2[i + 1] == o[i + 1]);
                }
            }
        }
    }
}

proof fn lemma_trim_shape(o: Seq<char>)
    requires
        is_key_prefix(o),
    ensures
        is_key(trim_trailing_underscores(o)),
    decreases o.len(),
{
    if o.len() > 0 && o.last() == '_' {
        let p = o.drop_last();
        assert forall|i: int| 0 <= i < p.len() - 1 implies !(#[trigger] p[i] == '_' && p[i + 1]
            == '_') by {
            assert(p[i] == o[i] && p[i + 1] == o[i + 1]);
        }
        assert forall|i: int| 0 <= i < p.len() implies key_char(#[trigger] p[i]) by {
            assert(p[i] == o[i]);
        }
        lemma_trim_shape(p);
    }
}

proof fn lemma_fold_of_key_prefix(s: Seq<char>)
    requires
        is_key_prefix(s),
    ensures
        norm_fold(s) == (s, s.len() == 0 || s.last() == '_'),
    decreases s.len(),
{
    if s.len() > 0 {
        let p = s.drop_last();
        assert forall|i: int| 0 <= i < p.len() - 1 implies !(#[trigger] p[i] == '_' && p[i + 1]
            == '_') by {
            assert(p[i] == s[i] && p[i + 1] == s[i + 1]);
        }
        assert forall|i: int| 0 <= i < p.len() implies key_char(#[trigger] p[i]) by {
            assert(p[i] == s[i]);
        }
        lemma_fold_of_key_prefix(p);
        let c = s.last();
        assert(key_char(s[s.len() - 1]));
        if c == '_' {
            if p.len() > 0 {
                assert(!(s[s.len() - 2] == '_' && s[s.len() - 1] == '_'));
            }
        }
        assert(p.push(c) =~= s);
    }
}

/// Normalisation is idempotent: a key normalises to itself.
pub proof fn lemma_normalise_idempotent(s: Seq<char>)
    ensures
        is_key(spec_normalise(s)),
        spec_normalise(spec_normalise(s)) == spec_normalise(s),
{
    lemma_fold_shape(s);
    lemma_trim_shape(norm_fold(s).0);
    lemma_normalise_key(spec_normalise(s));
}

/// The ASCII letters and digits of `s`, in order, lowercased.
pub open spec fn alnum_lowered(s: Seq<char>) -> Seq<char>
    decreases s.len(),
{
    if s.len() == 0 {
        Seq::empty()
    } else if is_ascii_alnum(s.last()) {
        alnum_lowered(s.drop_last()).push(ascii_lower(s.last()))
    } else {
        alnum_lowered(s.drop_last())
    }
}

/// `k` with its `_` separators taken out.
pub open spec fn without_separators(k: Seq<char>) -> Seq<char>
    decreases k.len(),
{
    if k.len() == 0 {
        Seq::empty()
    } else if k.last() == '_' {
        without_separators(k.drop_last())
    } else {
        without_separators(k.drop_last()).push(k.last())
    }
}

proof fn lemma_fold_content(s: Seq<char>)
    ensures
        without_separators(norm_fold(s).0) == alnum_lowered(s),
    decreases s.len(),
{
    if s.len() > 0 {
        lemma_fold_content(s.drop_last());
        let (o, sep) = norm_fold(s.drop_last());
        let c = s.last();
        if is_ascii_alnum(c) {
            let o2 = o.push(ascii_lower(c));
            assert(o2.drop_last() =~= o);
            assert(ascii_lower(c) != '_');
        } else if !sep {
            assert(o.push('_').drop_last() =~= o);
        }
    }
}

proof fn lemma_trim_content(o: Seq<char>)
    ensures
        without_separators(trim_trailing_underscores(o)) == without_separators(o),
    decreases o.len(),
{
    if o.len() > 0 && o.last() == '_' {
        lemma_trim_content(o.drop_last());
    }
}

/// A name's key holds the name's ASCII letters and digits, lowercased and in
/// order, with single `_` separators between them and none at either end.
pub proof fn lemma_normalise_content(s: Seq<char>)
    ensures
        is_key(spec_normalise(s)),
        without_separators(spec_normalise(s)) == alnum_lowered(s),
{
    lemma_fold_shape(s);
    lemma_trim_shape(norm_fold(s).0);
    lemma_fold_content(s);
    lemma_trim_content(norm_fold(s).0);
}

/// A key is its own normal form.
pub proof fn lemma_normalise_key(k: Seq<char>)
    requires
        is_key(k),
    ensures
        spec_normalise(k) == k,
{
    lemma_fold_of_key_prefix(k);
}

/// The key as a character vector.
fn normalise_chars(name: &str) -> (out: Vec<char>)
    ensures
        out@ == spec_normalise(name@),
{
    let raw = chars_of(name);
    let mut out: Vec<char> = Vec::new();
    let mut sep = true;
    let mut i: usize = 0;
    while i < raw.len()
        invariant
            raw@ == name@,
            i <= raw@.len(),
            (out@, sep) == norm_fold(raw@.subrange(0, i as int)),
        decreases raw@.len() - i,
    {
        let c = raw[i];
        assert(raw@.subrange(0, i + 1).drop_last() =~= raw@.subrange(0, i as int));
        if char_is_ascii_alnum(c) {
            out.push(char_to_ascii_lower(c));
            sep = false;
        } else if !sep {
            out.push('_');
            sep = true;
        }
        i = i + 1;
    }
    assert(raw@.subrange(0, raw@.len() as int) =~= raw@);
    while out.len() > 0 && out[out.len() - 1] == '_'
        invariant
            trim_trailing_underscores(out@) == spec_normalise(name@),
        decreases out@.len(),
    {
        let ghost before = out@;
        out.pop();
        assert(out@ =~= before.drop_last());
    }
    out
}

/// Reduce a driver-reported control name to a comparable key: ASCII letters
/// and digits lowercased, every run of anything else (punctuation, spaces)
/// collapsed to one `_`, and no `_` at either end. V4L2 reports names such as
/// "White Balance, Automatic", which must meet `white_balance_automatic`.
/// Surrounding whitespace needs no separate trim: like every other separator
/// it never survives at either end.
pub fn normalise_control_name(name: &str) -> (out: String)
    ensures
        out@ == spec_normalise(name@),
{
    let v = normalise_chars(name);
    string_from_chars(&v)
}

// ---- the control vocabulary -----------------------------------------------

/// A camera control, named rather than numbered.
#[derive(Debug, Clone, PartialEq, Eq, Hash)]
pub enum CameraControl {
    Brightness,
    Contrast,
    Saturation,
    Sharpness,
    Gamma,
    Hue,
    WhiteBalance,
    BacklightCompensation,
    Gain,
    Exposure,
    Focus,
    Zoom,
    Pan,
    Tilt,
    /// Anything the device exposes that is not in the standard list, kept by
    /// its key: a device's own controls are still usable by name.
    Custom(String),
}

pub enum ControlKind {
    Brightness,
    Contrast,
    Saturation,
    Sharpness,
    Gamma,
    Hue,
    WhiteBalance,
    BacklightCompensation,
    Gain,
    Exposure,
    Focus,
    Zoom,
    Pan,
    Tilt,
    Custom(Seq<char>),
}

impl View for CameraControl {
    type V = ControlKind;

    open spec fn view(&self) -> ControlKind {
        match self {
            CameraControl::Brightness => ControlKind::Brightness,
            CameraControl::Contrast => ControlKind::Contrast,
            CameraControl::Saturation => ControlKind::Saturation,
            CameraControl::Sharpness => ControlKind::Sharpness,
            CameraControl::Gamma => ControlKind::Gamma,
            CameraControl::Hue => ControlKind::Hue,
            CameraControl::WhiteBalance => ControlKind::WhiteBalance,
            CameraControl::BacklightCompensation => ControlKind::BacklightCompensation,
            CameraControl::Gain => ControlKind::Gain,
            CameraControl::Exposure => ControlKind::Exposure,
            CameraControl::Focus => ControlKind::Focus,
            CameraControl::Zoom => ControlKind::Zoom,
            CameraControl::Pan => ControlKind::Pan,
            CameraControl::Tilt => ControlKind::Tilt,
            CameraControl::Custom(s) => ControlKind::Custom(s@),
        }
    }
}

/// The control a driver name resolves to: the standard control whose key or
/// platform spelling (V4L2 `white_balance_temperature`, `*_absolute`;
/// Windows `whitebalance`) it normalises to, else `Custom` with its key.
pub open spec fn spec_from_name(name: Seq<char>) -> ControlKind {
    key_kind(spec_normalise(name))
}

/// The control a key names.
pub open spec fn key_kind(n: Seq<char>) -> ControlKind {
    if n == "brightness"@ {
        ControlKind::Brightness
    } else if n == "contrast"@ {
        ControlKind::Contrast
    } else if n == "saturation"@ {
        ControlKind::Saturation
    } else if n == "sharpness"@ {
        ControlKind::Sharpness
    } else if n == "gamma"@ {
        ControlKind::Gamma
    } else if n == "hue"@ {
        ControlKind::Hue
    } else if n == "white_balance"@ || n == "whitebalance"@ || n == "white_balance_temperature"@ {
        ControlKind::WhiteBalance
    } else if n == "backlight_compensation"@ || n == "backlightcompensation"@ {
        ControlKind::BacklightCompensation
    } else if n == "gain"@ {
        ControlKind::Gain
    } else if n == "exposure"@ || n == "exposure_time_absolute"@ {
        ControlKind::Exposure
    } else if n == "focus"@ || n == "focus_absolute"@ {
        ControlKind::Focus
    } else if n == "zoom"@ || n == "zoom_absolute"@ {
        ControlKind::Zoom
    } else if n == "pan"@ || n == "pan_absolute"@ {
        ControlKind::Pan
    } else if n == "tilt"@ || n == "tilt_absolute"@ {
        ControlKind::Tilt
    } else {
        ControlKind::Custom(n)
    }
}

/// The canonical name, which is also the key used in saved profiles.
pub open spec fn spec_control_name(c: ControlKind) -> Seq<char> {
    match c {
        ControlKind::Brightness => "brightness"@,
        ControlKind::Contrast => "contrast"@,
        ControlKind::Saturation => "saturation"@,
        ControlKind::Sharpness => "sharpness"@,
        ControlKind::Gamma => "gamma"@,
        ControlKind::Hue => "hue"@,
        ControlKind::WhiteBalance => "white_balance"@,
        ControlKind::BacklightCompensation => "backlight_compensation"@,
        ControlKind::Gain => "gain"@,
        ControlKind::Exposure => "exposure"@,
        ControlKind::Focus => "focus"@,
        ControlKind::Zoom => "zoom"@,
        ControlKind::Pan => "pan"@,
        ControlKind::Tilt => "tilt"@,
        ControlKind::Custom(s) => s,
    }
}

impl CameraControl {
    /// Resolve a driver-reported name to a control. Unknown names become
    /// `Custom` rather than an error: a control this list has not heard of is
    /// still a control.
    pub fn from_name(name: &str) -> (c: CameraControl)
        ensures
            c@ == spec_from_name(name@),
    {
        let n = normalise_chars(name);
        if chars_eq_str(&n, "brightness") {
            CameraControl::Brightness
        } else if chars_eq_str(&n, "contrast") {
            CameraControl::Contrast
        } else if chars_eq_str(&n, "saturation") {
            CameraControl::Saturation
        } else if chars_eq_str(&n, "sharpness") {
            CameraControl::Sharpness
        } else if chars_eq_str(&n, "gamma") {
            CameraControl::Gamma
        } else if chars_eq_str(&n, "hue") {
            CameraControl::Hue
        } else if chars_eq_str(&n, "white_balance") || chars_eq_str(&n, "whitebalance")
            || chars_eq_str(&n, "white_balance_temperature") {
            CameraControl::WhiteBalance
        } else if chars_eq_str(&n, "backlight_compensation") || chars_eq_str(
            &n,
            "backlightcompensation",
        ) {
            CameraControl::BacklightCompensation
        } else if chars_eq_str(&n, "gain") {
            CameraControl::Gain
        } else if chars_eq_str(&n, "exposure") || chars_eq_str(&n, "exposure_time_absolute") {
            CameraControl::Exposure
        } else if chars_eq_str(&n, "focus") || chars_eq_str(&n, "focus_absolute") {
            CameraControl::Focus
        } else if chars_eq_str(&n, "zoom") || chars_eq_str(&n, "zoom_absolute") {
            CameraControl::Zoom
        } else if chars_eq_str(&n, "pan") || chars_eq_str(&n, "pan_absolute") {
            CameraControl::Pan
        } else if chars_eq_str(&n, "tilt") || chars_eq_str(&n, "tilt_absolute") {
            CameraControl::Tilt
        } else {
            CameraControl::Custom(string_from_chars(&n))
        }
    }

    /// The canonical name, which is also the key used in saved profiles.
    pub fn name(&self) -> (s: String)
        ensures
            s@ == spec_control_name(self@),
    {
        match self {
            CameraControl::Brightness => string_of("brightness"),
            CameraControl::Contrast => string_of("contrast"),
            CameraControl::Saturation => string_of("saturation"),
            CameraControl::Sharpness => string_of("sharpness"),
            CameraControl::Gamma => string_of("gamma"),
            CameraControl::Hue => string_of("hue"),
            CameraControl::WhiteBalance => string_of("white_balance"),
            CameraControl::BacklightCompensation => string_of("backlight_compensation"),
            CameraControl::Gain => string_of("gain"),
            CameraControl::Exposure => string_of("exposure"),
            CameraControl::Focus => string_of("focus"),
            CameraControl::Zoom => string_of("zoom"),
            CameraControl::Pan => string_of("pan"),
            CameraControl::Tilt => string_of("tilt"),
            CameraControl::Custom(s) => string_of(s.as_str()),
        }
    }
}


/// A driver name that is already a key resolves by the key itself.
pub proof fn lemma_from_key(k: Seq<char>)
    requires
        is_key(k),
    ensures
        spec_from_name(k) == key_kind(k),
{
    lemma_normalise_key(k);
}

/// Every standard control's canonical name resolves back to that control, so
/// a profile written by name reads back as the same controls.
pub proof fn lemma_control_name_round_trip(c: ControlKind)
    requires
        !(c is Custom),
    ensures
        spec_from_name(spec_control_name(c)) == c,
{
    reveal_strlit("brightness");
    reveal_strlit("contrast");
    reveal_strlit("saturation");
    reveal_strlit("sharpness");
    reveal_strlit("gamma");
    reveal_strlit("hue");
    reveal_strlit("white_balance");
    reveal_strlit("whitebalance");
    reveal_strlit("white_balance_temperature");
    reveal_strlit("backlight_compensation");
    reveal_strlit("backlightcompensation");
    reveal_strlit("gain");
    reveal_strlit("exposure");
    reveal_strlit("exposure_time_absolute");
    reveal_strlit("focus");
    reveal_strlit("focus_absolute");
    reveal_strlit("zoom");
    reveal_strlit("zoom_absolute");
    reveal_strlit("pan");
    reveal_strlit("pan_absolute");
    reveal_strlit("tilt");
    reveal_strlit("tilt_absolute");
    let n = spec_control_name(c);
    assert(is_key(n));
    lemma_from_key(n);
}

/// Every spelling of a standard control resolves to that control, whatever
/// case and punctuation the driver reports it in: the canonical keys, the V4L2
/// names (`zoom_absolute`, `pan_absolute`, `tilt_absolute`, `focus_absolute`,
/// `exposure_time_absolute`, `white_balance_temperature`) and the Windows
/// names (`whitebalance`, `backlightcompensation`).
pub proof fn lemma_platform_spellings(name: Seq<char>)
    ensures
        spec_normalise(name) == "brightness"@ ==> spec_from_name(name) == ControlKind::Brightness,
        spec_normalise(name) == "contrast"@ ==> spec_from_name(name) == ControlKind::Contrast,
        spec_normalise(name) == "saturation"@ ==> spec_from_name(name) == ControlKind::Saturation,
        spec_normalise(name) == "sharpness"@ ==> spec_from_name(name) == ControlKind::Sharpness,
        spec_normalise(name) == "gamma"@ ==> spec_from_name(name) == ControlKind::Gamma,
        spec_normalise(name) == "hue"@ ==> spec_from_name(name) == ControlKind::Hue,
        spec_normalise(name) == "white_balance"@ ==> spec_from_name(name) == ControlKind::WhiteBalance,
        spec_normalise(name) == "whitebalance"@ ==> spec_from_name(name) == ControlKind::WhiteBalance,
        spec_normalise(name) == "white_balance_temperature"@ ==> spec_from_name(name) == ControlKind::WhiteBalance,
        spec_normalise(name) == "backlight_compensation"@ ==> spec_from_name(name) == ControlKind::BacklightCompensation,
        spec_normalise(name) == "backlightcompensation"@ ==> spec_from_name(name) == ControlKind::BacklightCompensation,
        spec_normalise(name) == "gain"@ ==> spec_from_name(name) == ControlKind::Gain,
        spec_normalise(name) == "exposure"@ ==> spec_from_name(name) == ControlKind::Exposure,
        spec_normalise(name) == "exposure_time_absolute"@ ==> spec_from_name(name) == ControlKind::Exposure,
        spec_normalise(name) == "focus"@ ==> spec_from_name(name) == ControlKind::Focus,
        spec_normalise(name) == "focus_absolute"@ ==> spec_from_name(name) == ControlKind::Focus,
        spec_normalise(name) == "zoom"@ ==> spec_from_name(name) == ControlKind::Zoom,
        spec_normalise(name) == "zoom_absolute"@ ==> spec_from_name(name) == ControlKind::Zoom,
        spec_normalise(name) == "pan"@ ==> spec_from_name(name) == ControlKind::Pan,
        spec_normalise(name) == "pan_absolute"@ ==> spec_from_name(name) == ControlKind::Pan,
        spec_normalise(name) == "tilt"@ ==> spec_from_name(name) == ControlKind::Tilt,
        spec_normalise(name) == "tilt_absolute"@ ==> spec_from_name(name) == ControlKind::Tilt,
{
    reveal_strlit("brightness");
    reveal_strlit("contrast");
    reveal_strlit("saturation");
    reveal_strlit("sharpness");
    reveal_strlit("gamma");
    reveal_strlit("hue");
    reveal_strlit("white_balance");
    reveal_strlit("whitebalance");
    reveal_strlit("white_balance_temperature");
    reveal_strlit("backlight_compensation");
    reveal_strlit("backlightcompensation");
    reveal_strlit("gain");
    reveal_strlit("exposure");
    reveal_strlit("exposure_time_absolute");
    reveal_strlit("focus");
    reveal_strlit("focus_absolute");
    reveal_strlit("zoom");
    reveal_strlit("zoom_absolute");
    reveal_strlit("pan");
    reveal_strlit("pan_absolute");
    reveal_strlit("tilt");
    reveal_strlit("tilt_absolute");
    // Each spelling differs from every name tested before it: by length,
    // or else by a character.
    assert(key_kind("brightness"@) == ControlKind::Brightness);
    assert(key_kind("contrast"@) == ControlKind::Contrast) by {
        assert("contrast"@.len() != "brightness"@.len());
    }
    assert(key_kind("saturation"@) == ControlKind::Saturation) by {
        assert("saturation"@[0] != "brightness"@[0]);
        assert("saturation"@.len() != "contrast"@.len());
    }
    assert(key_kind("sharpness"@) == ControlKind::Sharpness) by {
        assert("sharpness"@.len() != "brightness"@.len());
        assert("sharpness"@.len() != "contrast"@.len());
        assert("sharpness"@.len() != "saturation"@.len());
    }
    assert(key_kind("gamma"@) == ControlKind::Gamma) by {
        assert("gamma"@.len() != "brightness"@.len());
        assert("gamma"@.len() != "contrast"@.len());
        assert("gamma"@.len() != "saturation"@.len());
        assert("gamma"@.len() != "sharpness"@.len());
    }
    assert(key_kind("hue"@) == ControlKind::Hue) by {
        assert("hue"@.len() != "brightness"@.len());
        assert("hue"@.len() != "contrast"@.len());
        assert("hue"@.len() != "saturation"@.len());
        assert("hue"@.len() != "sharpness"@.len());
        assert("hue"@.len() != "gamma"@.len());
    }
    assert(key_kind("white_balance"@) == ControlKind::WhiteBalance) by {
        assert("white_balance"@.len() != "brightness"@.len());
        assert("white_balance"@.len() != "contrast"@.len());
        assert("white_balance"@.len() != "saturation"@.len());
        assert("white_balance"@.len() != "sharpness"@.len());
        assert("white_balance"@.len() != "gamma"@.len());
        assert("white_balance"@.len() != "hue"@.len());
    }
    assert(key_kind("whitebalance"@) == ControlKind::WhiteBalance) by {
        assert("whitebalance"@.len() != "brightness"@.len());
        assert("whitebalance"@.len() != "contrast"@.len());
        assert("whitebalance"@.len() != "saturation"@.len());
        assert("whitebalance"@.len() != "sharpness"@.len());
        assert("whitebalance"@.len() != "gamma"@.len());
        assert("whitebalance"@.len() != "hue"@.len());
        assert("whitebalance"@.len() != "white_balance"@.len());
    }
    assert(key_kind("white_balance_temperature"@) == ControlKind::WhiteBalance) by {
        assert("white_balance_temperature"@.len() != "brightness"@.len());
        assert("white_balance_temperature"@.len() != "contrast"@.len());
        assert("white_balance_temperature"@.len() != "saturation"@.len());
        assert("white_balance_temperature"@.len() != "sharpness"@.len());
        assert("white_balance_temperature"@.len() != "gamma"@.len());
        assert("white_balance_temperature"@.len() != "hue"@.len());
        assert("white_balance_temperature"@.len() != "white_balance"@.len());
        assert("white_balance_temperature"@.len() != "whitebalance"@.len());
    }
    assert(key_kind("backlight_compensation"@) == ControlKind::BacklightCompensation) by {
        assert("backlight_compensation"@.len() != "brightness"@.len());
        assert("backlight_compensation"@.len() != "contrast"@.len());
        assert("backlight_compensation"@.len() != "saturation"@.len());
        assert("backlight_compensation"@.len() != "sharpness"@.len());
        assert("backlight_compensation"@.len() != "gamma"@.len());
        assert("backlight_compensation"@.len() != "hue"@.len());
        assert("backlight_compensation"@.len() != "white_balance"@.len());
        assert("backlight_compensation"@.len() != "whitebalance"@.len());
        assert("backlight_compensation"@.len() != "white_balance_temperature"@.len());
    }
    assert(key_kind("backlightcompensation"@) == ControlKind::BacklightCompensation) by {
        assert("backlightcompensation"@.len() != "brightness"@.len());
        assert("backlightcompensation"@.len() != "contrast"@.len());
        assert("backlightcompensation"@.len() != "saturation"@.len());
        assert("backlightcompensation"@.len() != "sharpness"@.len());
        assert("backlightcompensation"@.len() != "gamma"@.len());
        assert("backlightcompensation"@.len() != "hue"@.len());
        assert("backlightcompensation"@.len() != "white_balance"@.len());
        assert("backlightcompensation"@.len() != "whitebalance"@.len());
        assert("backlightcompensation"@.len() != "white_balance_temperature"@.len());
        assert("backlightcompensation"@.len() != "backlight_compensation"@.len());
    }
    assert(key_kind("gain"@) == ControlKind::Gain) by {
        assert("gain"@.len() != "brightness"@.len());
        assert("gain"@.len() != "contrast"@.len());
        assert("gain"@.len() != "saturation"@.len());
        assert("gain"@.len() != "sharpness"@.len());
        assert("gain"@.len() != "gamma"@.len());
        assert("gain"@.len() != "hue"@.len());
        assert("gain"@.len() != "white_balance"@.len());
        assert("gain"@.len() != "whitebalance"@.len());
        assert("gain"@.len() != "white_balance_temperature"@.len());
        assert("gain"@.len() != "backlight_compensation"@.len());
        assert("gain"@.len() != "backlightcompensation"@.len());
    }
    assert(key_kind("exposure"@) == ControlKind::Exposure) by {
        assert("exposure"@.len() != "brightness"@.len());
        assert("exposure"@[0] != "contrast"@[0]);
        assert("exposure"@.len() != "saturation"@.len());
        assert("exposure"@.len() != "sharpness"@.len());
        assert("exposure"@.len() != "gamma"@.len());
        assert("exposure"@.len() != "hue"@.len());
        assert("exposure"@.len() != "white_balance"@.len());
        assert("exposure"@.len() != "whitebalance"@.len());
        assert("exposure"@.len() != "white_balance_temperature"@.len());
        assert("exposure"@.len() != "backlight_compensation"@.len());
        assert("exposure"@.len() != "backlightcompensation"@.len());
        assert("exposure"@.len() != "gain"@.len());
    }
    assert(key_kind("exposure_time_absolute"@) == ControlKind::Exposure) by {
        assert("exposure_time_absolute"@.len() != "brightness"@.len());
        assert("exposure_time_absolute"@.len() != "contrast"@.len());
        assert("exposure_time_absolute"@.len() != "saturation"@.len());
        assert("exposure_time_absolute"@.len() != "sharpness"@.len());
        assert("exposure_time_absolute"@.len() != "gamma"@.len());
        assert("exposure_time_absolute"@.len() != "hue"@.len());
        assert("exposure_time_absolute"@.len() != "white_balance"@.len());
        assert("exposure_time_absolute"@.len() != "whitebalance"@.len());
        assert("exposure_time_absolute"@.len() != "white_balance_temperature"@.len());
        assert("exposure_time_absolute"@[0] != "backlight_compensation"@[0]);
        assert("exposure_time_absolute"@.len() != "backlightcompensation"@.len());
        assert("exposure_time_absolute"@.len() != "gain"@.len());
        assert("exposure_time_absolute"@.len() != "exposure"@.len());
    }
    assert(key_kind("focus"@) == ControlKind::Focus) by {
        assert("focus"@.len() != "brightness"@.len());
        assert("focus"@.len() != "contrast"@.len());
        assert("focus"@.len() != "saturation"@.len());
        assert("focus"@.len() != "sharpness"@.len());
        assert("focus"@[0] != "gamma"@[0]);
        assert("focus"@.len() != "hue"@.len());
        assert("focus"@.len() != "white_balance"@.len());
        assert("focus"@.len() != "whitebalance"@.len());
        assert("focus"@.len() != "white_balance_temperature"@.len());
        assert("focus"@.len() != "backlight_compensation"@.len());
        assert("focus"@.len() != "backlightcompensation"@.len());
        assert("focus"@.len() != "gain"@.len());
        assert("focus"@.len() != "exposure"@.len());
        assert("focus"@.len() != "exposure_time_absolute"@.len());
    }
    assert(key_kind("focus_absolute"@) == ControlKind::Focus) by {
        assert("focus_absolute"@.len() != "brightness"@.len());
        assert("focus_absolute"@.len() != "contrast"@.len());
        assert("focus_absolute"@.len() != "saturation"@.len());
        assert("focus_absolute"@.len() != "sharpness"@.len());
        assert("focus_absolute"@.len() != "gamma"@.len());
        assert("focus_absolute"@.len() != "hue"@.len());
        assert("focus_absolute"@.len() != "white_balance"@.len());
        assert("focus_absolute"@.len() != "whitebalance"@.len());
        assert("focus_absolute"@.len() != "white_balance_temperature"@.len());
        assert("focus_absolute"@.len() != "backlight_compensation"@.len());
        assert("focus_absolute"@.len() != "backlightcompensation"@.len());
        assert("focus_absolute"@.len() != "gain"@.len());
        assert("focus_absolute"@.len() != "exposure"@.len());
        assert("focus_absolute"@.len() != "exposure_time_absolute"@.len());
        assert("focus_absolute"@.len() != "focus"@.len());
    }
    assert(key_kind("zoom"@) == ControlKind::Zoom) by {
        assert("zoom"@.len() != "brightness"@.len());
        assert("zoom"@.len() != "contrast"@.len());
        assert("zoom"@.len() != "saturation"@.len());
        assert("zoom"@.len() != "sharpness"@.len());
        assert("zoom"@.len() != "gamma"@.len());
        assert("zoom"@.len() != "hue"@.len());
        assert("zoom"@.len() != "white_balance"@.len());
        assert("zoom"@.len() != "whitebalance"@.len());
        assert("zoom"@.len() != "white_balance_temperature"@.len());
        assert("zoom"@.len() != "backlight_compensation"@.len());
        assert("zoom"@.len() != "backlightcompensation"@.len());
        assert("zoom"@[0] != "gain"@[0]);
        assert("zoom"@.len() != "exposure"@.len());
        assert("zoom"@.len() != "exposure_time_absolute"@.len());
        assert("zoom"@.len() != "focus"@.len());
        assert("zoom"@.len() != "focus_absolute"@.len());
    }
    assert(key_kind("zoom_absolute"@) == ControlKind::Zoom) by {
        assert("zoom_absolute"@.len() != "brightness"@.len());
        assert("zoom_absolute"@.len() != "contrast"@.len());
        assert("zoom_absolute"@.len() != "saturation"@.len());
        assert("zoom_absolute"@.len() != "sharpness"@.len());
        assert("zoom_absolute"@.len() != "gamma"@.len());
        assert("zoom_absolute"@.len() != "hue"@.len());
        assert("zoom_absolute"@[0] != "white_balance"@[0]);
        assert("zoom_absolute"@.len() != "whitebalance"@.len());
        assert("zoom_absolute"@.len() != "white_balance_temperature"@.len());
        assert("zoom_absolute"@.len() != "backlight_compensation"@.len());
        assert("zoom_absolute"@.len() != "backlightcompensation"@.len());
        assert("zoom_absolute"@.len() != "gain"@.len());
        assert("zoom_absolute"@.len() != "exposure"@.len());
        assert("zoom_absolute"@.len() != "exposure_time_absolute"@.len());
        assert("zoom_absolute"@.len() != "focus"@.len());
        assert("zoom_absolute"@.len() != "focus_absolute"@.len());
        assert("zoom_absolute"@.len() != "zoom"@.len());
    }
    assert(key_kind("pan"@) == ControlKind::Pan) by {
        assert("pan"@.len() != "brightness"@.len());
        assert("pan"@.len() != "contrast"@.len());
        assert("pan"@.len() != "saturation"@.len());
        assert("pan"@.len() != "sharpness"@.len());
        assert("pan"@.len() != "gamma"@.len());
        assert("pan"@[0] != "hue"@[0]);
        assert("pan"@.len() != "white_balance"@.len());
        assert("pan"@.len() != "whitebalance"@.len());
        assert("pan"@.len() != "white_balance_temperature"@.len());
        assert("pan"@.len() != "backlight_compensation"@.len());
        assert("pan"@.len() != "backlightcompensation"@.len());
        assert("pan"@.len() != "gain"@.len());
        assert("pan"@.len() != "exposure"@.len());
        assert("pan"@.len() != "exposure_time_absolute"@.len());
        assert("pan"@.len() != "focus"@.len());
        assert("pan"@.len() != "focus_absolute"@.len());
        assert("pan"@.len() != "zoom"@.len());
        assert("pan"@.len() != "zoom_absolute"@.len());
    }
    assert(key_kind("pan_absolute"@) == ControlKind::Pan) by {
        assert("pan_absolute"@.len() != "brightness"@.len());
        assert("pan_absolute"@.len() != "contrast"@.len());
        assert("pan_absolute"@.len() != "saturation"@.len());
        assert("pan_absolute"@.len() != "sharpness"@.len());
        assert("pan_absolute"@.len() != "gamma"@.len());
        assert("pan_absolute"@.len() != "hue"@.len());
        assert("pan_absolute"@.len() != "white_balance"@.len());
        assert("pan_absolute"@[0] != "whitebalance"@[0]);
        assert("pan_absolute"@.len() != "white_balance_temperature"@.len());
        assert("pan_absolute"@.len() != "backlight_compensation"@.len());
        assert("pan_absolute"@.len() != "backlightcompensation"@.len());
        assert("pan_absolute"@.len() != "gain"@.len());
        assert("pan_absolute"@.len() != "exposure"@.len());
        assert("pan_absolute"@.len() != "exposure_time_absolute"@.len());
        assert("pan_absolute"@.len() != "focus"@.len());
        assert("pan_absolute"@.len() != "focus_absolute"@.len());
        assert("pan_absolute"@.len() != "zoom"@.len());
        assert("pan_absolute"@.len() != "zoom_absolute"@.len());
        assert("pan_absolute"@.len() != "pan"@.len());
    }
    assert(key_kind("tilt"@) == ControlKind::Tilt) by {
        assert("tilt"@.len() != "brightness"@.len());
        assert("tilt"@.len() != "contrast"@.len());
        assert("tilt"@.len() != "saturation"@.len());
        assert("tilt"@.len() != "sharpness"@.len());
        assert("tilt"@.len() != "gamma"@.len());
        assert("tilt"@.len() != "hue"@.len());
        assert("tilt"@.len() != "white_balance"@.len());
        assert("tilt"@.len() != "whitebalance"@.len());
        assert("tilt"@.len() != "white_balance_temperature"@.len());
        assert("tilt"@.len() != "backlight_compensation"@.len());
        assert("tilt"@.len() != "backlightcompensation"@.len());
        assert("tilt"@[0] != "gain"@[0]);
        assert("tilt"@.len() != "exposure"@.len());
        assert("tilt"@.len() != "exposure_time_absolute"@.len());
        assert("tilt"@.len() != "focus"@.len());
        assert("tilt"@.len() != "focus_absolute"@.len());
        assert("tilt"@[0] != "zoom"@[0]);
        assert("tilt"@.len() != "zoom_absolute"@.len());
        assert("tilt"@.len() != "pan"@.len());
        assert("tilt"@.len() != "pan_absolute"@.len());
    }
    assert(key_kind("tilt_absolute"@) == ControlKind::Tilt) by {
        assert("tilt_absolute"@.len() != "brightness"@.len());
        assert("tilt_absolute"@.len() != "contrast"@.len());
        assert("tilt_absolute"@.len() != "saturation"@.len());
        assert("tilt_absolute"@.len() != "sharpness"@.len());
        assert("tilt_absolute"@.len() != "gamma"@.len());
        assert("tilt_absolute"@.len() != "hue"@.len());
        assert("tilt_absolute"@[0] != "white_balance"@[0]);
        assert("tilt_absolute"@.len() != "whitebalance"@.len());
        assert("tilt_absolute"@.len() != "white_balance_temperature"@.len());
        assert("tilt_absolute"@.len() != "backlight_compensation"@.len());
        assert("tilt_absolute"@.len() != "backlightcompensation"@.len());
        assert("tilt_absolute"@.len() != "gain"@.len());
        assert("tilt_absolute"@.len() != "exposure"@.len());
        assert("tilt_absolute"@.len() != "exposure_time_absolute"@.len());
        assert("tilt_absolute"@.len() != "focus"@.len());
        assert("tilt_absolute"@.len() != "focus_absolute"@.len());
        assert("tilt_absolute"@.len() != "zoom"@.len());
        assert("tilt_absolute"@[0] != "zoom_absolute"@[0]);
        assert("tilt_absolute"@.len() != "pan"@.len());
        assert("tilt_absolute"@.len() != "pan_absolute"@.len());
        assert("tilt_absolute"@.len() != "tilt"@.len());
    }
}

/// A custom control named by a key that spells no standard control resolves
/// back to itself.
pub proof fn lemma_custom_round_trip(k: Seq<char>)
    requires
        is_key(k),
        key_kind(k) is Custom,
    ensures
        spec_from_name(spec_control_name(ControlKind::Custom(k))) == ControlKind::Custom(k),
{
    lemma_from_key(k);
}

// ---- automation companions ------------------------------------------------

/// Whether a control can be handed back to the camera's own automation.
/// Derived from what the device reports, never assumed: UVC drivers expose
/// automation as a separate companion control, and only a boolean one
/// (`min == 0 && max == 1`) is toggled. A menu companion (V4L2
/// `auto_exposure`: auto, manual, shutter or aperture priority) has no value
/// that means "on", so it is reported with the reason instead of guessed at.
#[derive(Debug, Clone, PartialEq, Eq)]
pub enum AutoSupport {
    /// No companion control was reported for this control.
    NoCompanion,
    /// A boolean companion exists and can be toggled.
    Toggleable { companion_id: u32, companion_name: String },
    /// A companion exists but its semantics are not a simple on/off.
    NotToggleable { companion_name: String, reason: String },
}

pub enum AutoView {
    NoCompanion,
    Toggleable { companion_id: u32, companion_name: Seq<char> },
    NotToggleable { companion_name: Seq<char>, reason: Seq<char> },
}

impl View for AutoSupport {
    type V = AutoView;

    open spec fn view(&self) -> AutoView {
        match self {
            AutoSupport::NoCompanion => AutoView::NoCompanion,
            AutoSupport::Toggleable { companion_id, companion_name } => AutoView::Toggleable {
                companion_id: *companion_id,
                companion_name: companion_name@,
            },
            AutoSupport::NotToggleable { companion_name, reason } => AutoView::NotToggleable {
                companion_name: companion_name@,
                reason: reason@,
            },
        }
    }
}

impl AutoSupport {
    pub fn is_toggleable(&self) -> (b: bool)
        ensures
            b == (self@ is Toggleable),
    {
        match self {
            AutoSupport::Toggleable { .. } => true,
            _ => false,
        }
    }
}

/// The companion names that automate a control, in the order they are tried:
/// the V4L2 convention is the quantity plus `_automatic`, or `auto_` first.
pub open spec fn auto_candidates(base: Seq<char>) -> Seq<Seq<char>> {
    if base == "white_balance"@ {
        seq!["white_balance_automatic"@, "auto_white_balance"@]
    } else if base == "exposure"@ {
        seq!["auto_exposure"@, "exposure_auto"@]
    } else if base == "focus"@ {
        seq!["focus_automatic_continuous"@, "focus_auto"@, "auto_focus"@]
    } else if base == "gain"@ {
        seq!["gain_automatic"@, "auto_gain"@]
    } else if base == "hue"@ {
        seq!["hue_auto"@, "auto_hue"@]
    } else {
        seq![]
    }
}

/// The first control at or after `i` whose key is `cand`.
pub open spec fn first_named(all: Seq<ControlInfoView>, cand: Seq<char>, i: int) -> Option<int>
    decreases all.len() - i,
{
    if i < 0 || i >= all.len() {
        Option::None
    } else if spec_normalise(all[i].name) == cand {
        Option::Some(i)
    } else {
        first_named(all, cand, i + 1)
    }
}

pub open spec fn menu_reason(min: i64, max: i64) -> Seq<char> {
    "companion is a menu (min "@ + decimal_int(min as int) + " max "@ + decimal_int(max as int)
        + "), not a boolean; its values are mode-specific and cannot be inferred"@
}

/// What a found companion means: toggleable when boolean, else a menu.
pub open spec fn companion_support(info: ControlInfoView) -> AutoView {
    if info.min == 0 && info.max == 1 {
        AutoView::Toggleable { companion_id: info.id, companion_name: info.name }
    } else {
        AutoView::NotToggleable {
            companion_name: info.name,
            reason: menu_reason(info.min, info.max),
        }
    }
}

/// Candidates from `j` on: the first one the device reported decides.
pub open spec fn resolve_from(all: Seq<ControlInfoView>, cands: Seq<Seq<char>>, j: int) -> AutoView
    decreases cands.len() - j,
{
    if j < 0 || j >= cands.len() {
        AutoView::NoCompanion
    } else {
        match first_named(all, cands[j], 0) {
            Option::Some(i) => companion_support(all[i]),
            Option::None => resolve_from(all, cands, j + 1),
        }
    }
}

pub open spec fn infos_view(all: Seq<ControlCapabilityInfo>) -> Seq<ControlInfoView> {
    all.map_values(|i: ControlCapabilityInfo| i@)
}

/// Automation support of the control `target` names, from one HAL listing.
pub open spec fn spec_resolve_auto_support(all: Seq<ControlInfoView>, target: Seq<char>) -> AutoView {
    resolve_from(all, auto_candidates(spec_control_name(spec_from_name(target))), 0)
}

fn candidates_for(base: &str) -> (v: Vec<&'static str>)
    ensures
        v@.map_values(|s: &str| s@) == auto_candidates(base@),
{
    let b = chars_of(base);
    let mut v: Vec<&'static str> = Vec::new();
    if chars_eq_str(&b, "white_balance") {
        v.push("white_balance_automatic");
        v.push("auto_white_balance");
    } else if chars_eq_str(&b, "exposure") {
        v.push("auto_exposure");
        v.push("exposure_auto");
    } else if chars_eq_str(&b, "focus") {
        v.push("focus_automatic_continuous");
        v.push("focus_auto");
        v.push("auto_focus");
    } else if chars_eq_str(&b, "gain") {
        v.push("gain_automatic");
        v.push("auto_gain");
    } else if chars_eq_str(&b, "hue") {
        v.push("hue_auto");
        v.push("auto_hue");
    }
    proof {
        assert(v@.map_values(|s: &str| s@) =~= auto_candidates(base@));
    }
    v
}

/// Index of the first control whose key is `cand`.
fn find_named(all: &[ControlCapabilityInfo], cand: &str) -> (r: Option<usize>)
    ensures
        match r {
            Option::Some(i) => first_named(infos_view(all@), cand@, 0) == Option::Some(i as int),
            Option::None => first_named(infos_view(all@), cand@, 0) == Option::<int>::None,
        },
        r is Some ==> r->0 < all@.len(),
{
    let ghost av = infos_view(all@);
    let mut i: usize = 0;
    while i < all.len()
        invariant
            av == infos_view(all@),
            i <= all@.len(),
            first_named(av, cand@, 0) == first_named(av, cand@, i as int),
        decreases all@.len() - i,
    {
        let key = normalise_chars(all[i].name.as_str());
        assert(av[i as int] == all@[i as int]@);
        if chars_eq_str(&key, cand) {
            return Option::Some(i);
        }
        i = i + 1;
    }
    Option::None
}

/// Pair a control with its automation companion, from one HAL listing. A
/// companion is recognised by name only; nothing invents a pairing the device
/// did not report both halves of.
pub fn resolve_auto_support(all: &[ControlCapabilityInfo], target: &str) -> (a: AutoSupport)
    ensures
        a@ == spec_resolve_auto_support(infos_view(all@), target@),
{
    let base = CameraControl::from_name(target).name();
    let cands = candidates_for(base.as_str());
    let ghost cv = cands@.map_values(|s: &str| s@);
    let ghost av = infos_view(all@);
    let mut j: usize = 0;
    while j < cands.len()
        invariant
            cv == cands@.map_values(|s: &str| s@),
            cv == auto_candidates(spec_control_name(spec_from_name(target@))),
            av == infos_view(all@),
            j <= cands@.len(),
            resolve_from(av, cv, 0) == resolve_from(av, cv, j as int),
        decreases cands@.len() - j,
    {
        let cand = cands[j];
        assert(cv[j as int] == cand@);
        match find_named(all, cand) {
            Option::Some(i) => {
                let info = &all[i];
                assert(av[i as int] == info@);
                assert(resolve_from(av, cv, j as int) == companion_support(av[i as int]));
                if info.min == 0 && info.max == 1 {
                    return AutoSupport::Toggleable {
                        companion_id: info.id,
                        companion_name: string_of(info.name.as_str()),
                    };
                } else {
                    let mut reason = String::new();
                    push_str(&mut reason, "companion is a menu (min ");
                    push_decimal_i64(&mut reason, info.min);
                    push_str(&mut reason, " max ");
                    push_decimal_i64(&mut reason, info.max);
                    push_str(
                        &mut reason,
                        "), not a boolean; its values are mode-specific and cannot be inferred",
                    );
                    assert(reason@ == menu_reason(info.min, info.max));
                    return AutoSupport::NotToggleable {
                        companion_name: string_of(info.name.as_str()),
                        reason,
                    };
                }
            },
            Option::None => {},
        }
        j = j + 1;
    }
    AutoSupport::NoCompanion
}

/// The device reports a control whose key is `key`.
pub open spec fn reports(all: Seq<ControlInfoView>, key: Seq<char>) -> bool {
    exists|k: int| 0 <= k < all.len() && spec_normalise(#[trigger] all[k].name) == key
}

/// `all[i]` is the first reported control whose key is `key`.
pub open spec fn first_with(all: Seq<ControlInfoView>, key: Seq<char>, i: int) -> bool {
    &&& 0 <= i < all.len()
    &&& spec_normalise(all[i].name) == key
    &&& forall|k: int| 0 <= k < i ==> spec_normalise(#[trigger] all[k].name) != key
}

/// `r` is what companion `info` means: toggleable by its id and name when it
/// is a boolean (0..=1), else a menu reported with its range.
pub open spec fn decided_by(r: AutoView, info: ControlInfoView) -> bool {
    if info.min == 0 && info.max == 1 {
        r == (AutoView::Toggleable { companion_id: info.id, companion_name: info.name })
    } else {
        r == (AutoView::NotToggleable {
            companion_name: info.name,
            reason: menu_reason(info.min, info.max),
        })
    }
}

/// Companions tried in the order of `names`: the first name the device
/// reports decides, by the first control reported under it; none reported
/// means no companion.
pub open spec fn chosen_in_order(all: Seq<ControlInfoView>, r: AutoView, names: Seq<Seq<char>>) -> bool {
    &&& forall|j: int, i: int|
        0 <= j < names.len() && #[trigger] first_with(all, names[j], i) && (forall|m: int|
            0 <= m < j ==> !#[trigger] reports(all, names[m])) ==> decided_by(r, all[i])
    &&& (forall|j: int| 0 <= j < names.len() ==> !#[trigger] reports(all, names[j])) ==> r
        is NoCompanion
}

/// Which companion automates which control, and in what order they are
/// tried: focus by `focus_automatic_continuous` (V4L2's name), then
/// `focus_auto`, then `auto_focus`; white balance by
/// `white_balance_automatic`, then `auto_white_balance`; exposure by
/// `auto_exposure`, then `exposure_auto`; gain by `gain_automatic`, then
/// `auto_gain`; hue by `hue_auto`, then `auto_hue`. The first of these the
/// device reports decides; no other control has a companion.
pub proof fn lemma_automation_companions(all: Seq<ControlInfoView>, target: Seq<char>)
    ensures
        ({
            let r = spec_resolve_auto_support(all, target);
            let c = spec_from_name(target);
            &&& c == ControlKind::Focus ==> chosen_in_order(
                all,
                r,
                seq!["focus_automatic_continuous"@, "focus_auto"@, "auto_focus"@],
            )
            &&& c == ControlKind::WhiteBalance ==> chosen_in_order(
                all,
                r,
                seq!["white_balance_automatic"@, "auto_white_balance"@],
            )
            &&& c == ControlKind::Exposure ==> chosen_in_order(
                all,
                r,
                seq!["auto_exposure"@, "exposure_auto"@],
            )
            &&& c == ControlKind::Gain ==> chosen_in_order(all, r, seq!["gain_automatic"@, "auto_gain"@])
            &&& c == ControlKind::Hue ==> chosen_in_order(all, r, seq!["hue_auto"@, "auto_hue"@])
            &&& !(c is Focus || c is WhiteBalance || c is Exposure || c is Gain || c is Hue) ==> r
                is NoCompanion
        }),
{
    let c = spec_from_name(target);
    let base = spec_control_name(c);
    let names = auto_candidates(base);
    lemma_resolve_in_order(all, names, 0);
    reveal_strlit("white_balance");
    reveal_strlit("exposure");
    reveal_strlit("focus");
    reveal_strlit("gain");
    reveal_strlit("hue");
    match c {
        ControlKind::Focus => {
            assert("focus"@.len() != "white_balance"@.len());
            assert("focus"@.len() != "exposure"@.len());
            assert(names =~= seq!["focus_automatic_continuous"@, "focus_auto"@, "auto_focus"@]);
        },
        ControlKind::WhiteBalance => {
            assert(names =~= seq!["white_balance_automatic"@, "auto_white_balance"@]);
        },
        ControlKind::Exposure => {
            assert("exposure"@.len() != "white_balance"@.len());
            assert(names =~= seq!["auto_exposure"@, "exposure_auto"@]);
        },
        ControlKind::Gain => {
            assert("gain"@.len() != "white_balance"@.len());
            assert("gain"@.len() != "exposure"@.len());
            assert("gain"@.len() != "focus"@.len());
            assert(names =~= seq!["gain_automatic"@, "auto_gain"@]);
        },
        ControlKind::Hue => {
            assert("hue"@.len() != "white_balance"@.len());
            assert("hue"@.len() != "exposure"@.len());
            assert("hue"@.len() != "focus"@.len());
            assert("hue"@.len() != "gain"@.len());
            assert(names =~= seq!["hue_auto"@, "auto_hue"@]);
        },
        ControlKind::Brightness => {
            reveal_strlit("brightness");
            assert("brightness"@.len() != "white_balance"@.len());
            assert("brightness"@.len() != "exposure"@.len());
            assert("brightness"@.len() != "focus"@.len());
            assert("brightness"@.len() != "gain"@.len());
            assert("brightness"@.len() != "hue"@.len());
            assert(names.len() == 0);
        },
        ControlKind::Contrast => {
            reveal_strlit("contrast");
            assert("contrast"@.len() != "white_balance"@.len());
            assert("contrast"@[0] != "exposure"@[0]);
            assert("contrast"@.len() != "focus"@.len());
            assert("contrast"@.len() != "gain"@.len());
            assert("contrast"@.len() != "hue"@.len());
            assert(names.len() == 0);
        },
        ControlKind::Saturation => {
            reveal_strlit("saturation");
            assert("saturation"@.len() != "white_balance"@.len());
            assert("saturation"@.len() != "exposure"@.len());
            assert("saturation"@.len() != "focus"@.len());
            assert("saturation"@.len() != "gain"@.len());
            assert("saturation"@.len() != "hue"@.len());
            assert(names.len() == 0);
        },
        ControlKind::Sharpness => {
            reveal_strlit("sharpness");
            assert("sharpness"@.len() != "white_balance"@.len());
            assert("sharpness"@.len() != "exposure"@.len());
            assert("sharpness"@.len() != "focus"@.len());
            assert("sharpness"@.len() != "gain"@.len());
            assert("sharpness"@.len() != "hue"@.len());
            assert(names.len() == 0);
        },
        ControlKind::Gamma => {
            reveal_strlit("gamma");
            assert("gamma"@.len() != "white_balance"@.len());
            assert("gamma"@.len() != "exposure"@.len());
            assert("gamma"@[0] != "focus"@[0]);
            assert("gamma"@.len() != "gain"@.len());
            assert("gamma"@.len() != "hue"@.len());
            assert(names.len() == 0);
        },
        ControlKind::BacklightCompensation => {
            reveal_strlit("backlight_compensation");
            assert("backlight_compensation"@.len() != "white_balance"@.len());
            assert("backlight_compensation"@.len() != "exposure"@.len());
            assert("backlight_compensation"@.len() != "focus"@.len());
            assert("backlight_compensation"@.len() != "gain"@.len());
            assert("backlight_compensation"@.len() != "hue"@.len());
            assert(names.len() == 0);
        },
        ControlKind::Zoom => {
            reveal_strlit("zoom");
            assert("zoom"@.len() != "white_balance"@.len());
            assert("zoom"@.len() != "exposure"@.len());
            assert("zoom"@.len() != "focus"@.len());
            assert("zoom"@[0] != "gain"@[0]);
            assert("zoom"@.len() != "hue"@.len());
            assert(names.len() == 0);
        },
        ControlKind::Pan => {
            reveal_strlit("pan");
            assert("pan"@.len() != "white_balance"@.len());
            assert("pan"@.len() != "exposure"@.len());
            assert("pan"@.len() != "focus"@.len());
            assert("pan"@.len() != "gain"@.len());
            assert("pan"@[0] != "hue"@[0]);
            assert(names.len() == 0);
        },
        ControlKind::Tilt => {
            reveal_strlit("tilt");
            assert("tilt"@.len() != "white_balance"@.len());
            assert("tilt"@.len() != "exposure"@.len());
            assert("tilt"@.len() != "focus"@.len());
            assert("tilt"@[0] != "gain"@[0]);
            assert("tilt"@.len() != "hue"@.len());
            assert(names.len() == 0);
        },
        ControlKind::Custom(n) => {
            assert(n == spec_normalise(target));
            assert(names.len() == 0);
        },
    }
}

proof fn lemma_first_named_from(all: Seq<ControlInfoView>, key: Seq<char>, j: int, i: int)
    requires
        0 <= j <= i,
        first_with(all, key, i),
    ensures
        first_named(all, key, j) == Option::Some(i),
    decreases i - j,
{
    if j < i {
        assert(spec_normalise(all[j].name) != key);
        lemma_first_named_from(all, key, j + 1, i);
    }
}

proof fn lemma_first_named_absent(all: Seq<ControlInfoView>, key: Seq<char>, j: int)
    requires
        0 <= j,
        !reports(all, key),
    ensures
        first_named(all, key, j) is None,
    decreases all.len() - j,
{
    if j < all.len() {
        assert(spec_normalise(all[j].name) != key);
        lemma_first_named_absent(all, key, j + 1);
    }
}

proof fn lemma_first_named_some(all: Seq<ControlInfoView>, key: Seq<char>, j: int)
    requires
        0 <= j,
    ensures
        first_named(all, key, j) matches Option::Some(i) ==> first_with(all, key, i) || exists|
            k: int,
        | 0 <= k < j && spec_normalise(#[trigger] all[k].name) == key,
        first_named(all, key, j) is None ==> forall|k: int|
            j <= k < all.len() ==> spec_normalise(#[trigger] all[k].name) != key,
    decreases all.len() - j,
{
    if 0 <= j < all.len() && spec_normalise(all[j].name) != key {
        lemma_first_named_some(all, key, j + 1);
    }
}

/// Trying candidates in order from `j` on, with none before `j` reported.
proof fn lemma_resolve_in_order(all: Seq<ControlInfoView>, names: Seq<Seq<char>>, j: int)
    requires
        0 <= j <= names.len(),
        forall|m: int| 0 <= m < j ==> !#[trigger] reports(all, names[m]),
    ensures
        forall|jj: int, i: int|
            j <= jj < names.len() && #[trigger] first_with(all, names[jj], i) && (forall|m: int|
                0 <= m < jj ==> !#[trigger] reports(all, names[m])) ==> decided_by(
                resolve_from(all, names, j),
                all[i],
            ),
        (forall|m: int| j <= m < names.len() ==> !#[trigger] reports(all, names[m]))
            ==> resolve_from(all, names, j) is NoCompanion,
    decreases names.len() - j,
{
    if j < names.len() {
        lemma_first_named_some(all, names[j], 0);
        match first_named(all, names[j], 0) {
            Option::Some(i0) => {
                assert(reports(all, names[j])) by {
                    assert(spec_normalise(all[i0].name) == names[j]);
                }
                assert forall|jj: int, i: int|
                    j <= jj < names.len() && #[trigger] first_with(all, names[jj], i) && (forall|
                        m: int,
                    | 0 <= m < jj ==> !#[trigger] reports(all, names[m])) implies decided_by(
                    resolve_from(all, names, j),
                    all[i],
                ) by {
                    if jj > j {
                        assert(!reports(all, names[j]));
                    }
                    assert(jj == j);
                    if i != i0 {
                        if i < i0 {
                            assert(spec_normalise(all[i].name) == names[j]);
                        } else {
                            assert(spec_normalise(all[i0].name) == names[j]);
                        }
                    }
                }
            },
            Option::None => {
                assert(!reports(all, names[j])) by {
                    if reports(all, names[j]) {
                        let k = choose|k: int|
                            0 <= k < all.len() && spec_normalise(#[trigger] all[k].name) == names[j];
                        assert(spec_normalise(all[k].name) != names[j]);
                    }
                }
                assert forall|m: int| 0 <= m < j + 1 implies !#[trigger] reports(all, names[m]) by {}
                lemma_resolve_in_order(all, names, j + 1);
                assert forall|jj: int, i: int|
                    j <= jj < names.len() && #[trigger] first_with(all, names[jj], i) && (forall|
                        m: int,
                    | 0 <= m < jj ==> !#[trigger] reports(all, names[m])) implies decided_by(
                    resolve_from(all, names, j),
                    all[i],
                ) by {
                    if jj == j {
                        assert(reports(all, names[j])) by {
                            assert(spec_normalise(all[i].name) == names[j]);
                        }
                    }
                }
            },
        }
    }
}


// ---- capabilities ---------------------------------------------------------

/// What a single control can do on the attached device, plus its current
/// value. The id is platform-defined: profiles are keyed by name instead.
#[derive(Debug, Clone)]
pub struct ControlCapability {
    pub control: CameraControl,
    pub id: u32,
    pub min: i64,
    pub max: i64,
    pub step: i64,
    pub default: i64,
    pub current: i64,
    pub auto: AutoSupport,
}

pub struct CapabilityView {
    pub control: ControlKind,
    pub id: u32,
    pub min: i64,
    pub max: i64,
    pub step: i64,
    pub default: i64,
    pub current: i64,
    pub auto: AutoView,
}

impl View for ControlCapability {
    type V = CapabilityView;

    open spec fn view(&self) -> CapabilityView {
        CapabilityView {
            control: self.control@,
            id: self.id,
            min: self.min,
            max: self.max,
            step: self.step,
            default: self.default,
            current: self.current,
            auto: self.auto@,
        }
    }
}

/// `value` is in range and, when the step is positive, on the grid that
/// starts at `min`. A non-positive step is a driver quirk, not a grid.
pub open spec fn spec_accepts(min: int, max: int, step: int, value: int) -> bool {
    &&& min <= value <= max
    &&& (step > 0 ==> (value - min) % step == 0)
}

pub open spec fn clamp_range(min: int, max: int, value: int) -> int {
    if value < min {
        min
    } else if value > max {
        max
    } else {
        value
    }
}

/// The grid point at or below the clamped value.
pub open spec fn grid_below(min: int, max: int, step: int, value: int) -> int {
    let v = clamp_range(min, max, value);
    min + ((v - min) / step) * step
}

/// The accepted value nearest the clamped value: for steps above 1 the
/// nearer of the grid points below and above it, ties going up, the one above
/// only when it is still in range.
pub open spec fn spec_clamp(min: int, max: int, step: int, value: int) -> int {
    let v = clamp_range(min, max, value);
    if step <= 1 {
        v
    } else {
        let snapped = grid_below(min, max, step, value);
        let up = snapped + step;
        if up <= max && (v - snapped) * 2 >= step {
            up
        } else {
            snapped
        }
    }
}

/// How far apart two integers are.
pub open spec fn dist(a: int, b: int) -> int {
    if a >= b {
        a - b
    } else {
        b - a
    }
}

/// The inputs on which `clamp_value`'s arithmetic stays within `i64` (and
/// `i64::clamp` has a well-formed range).
pub open spec fn clamp_in_range(min: i64, max: i64, step: i64, value: i64) -> bool {
    &&& min <= max
    &&& max - min <= i64::MAX
    &&& step > 1 ==> grid_below(min as int, max as int, step as int, value as int) + step <= i64::MAX
    &&& step > 1 ==> (clamp_range(min as int, max as int, value as int) - grid_below(
        min as int,
        max as int,
        step as int,
        value as int,
    )) * 2 <= i64::MAX
}

impl ControlCapability {
    /// Is `value` one this control will actually accept? Range and step: a
    /// driver reporting `min=0 max=64 step=4` does not accept 5, and a set that
    /// silently rounded would read back other than what was written.
    pub fn validate_value(&self, value: i64) -> (b: bool)
        requires
            self.step > 0 && self.min <= value <= self.max ==> value - self.min <= i64::MAX,
        ensures
            b == spec_accepts(self.min as int, self.max as int, self.step as int, value as int),
    {
        if value < self.min || value > self.max {
            return false;
        }
        if self.step <= 0 {
            return true;
        }
        (value - self.min) % self.step == 0
    }

    /// Clamp to the nearest acceptable value on the control's own grid, for
    /// callers that want "as close as possible" rather than a rejection.
    pub fn clamp_value(&self, value: i64) -> (r: i64)
        requires
            clamp_in_range(self.min, self.max, self.step, value),
        ensures
            r == spec_clamp(self.min as int, self.max as int, self.step as int, value as int),
            spec_accepts(self.min as int, self.max as int, self.step as int, r as int),
            forall|x: int|
                spec_accepts(self.min as int, self.max as int, self.step as int, x) ==> dist(r as int,
                    clamp_range(self.min as int, self.max as int, value as int)) <= #[trigger] dist(x,
                    clamp_range(self.min as int, self.max as int, value as int)),
    {
        proof {
            lemma_clamp_is_accepted(self.min as int, self.max as int, self.step as int, value as int);
            assert forall|x: int|
                spec_accepts(self.min as int, self.max as int, self.step as int, x) implies dist(
                    spec_clamp(self.min as int, self.max as int, self.step as int, value as int),
                    clamp_range(self.min as int, self.max as int, value as int),
                ) <= #[trigger] dist(x, clamp_range(self.min as int, self.max as int, value as int)) by {
                lemma_clamp_is_nearest(self.min as int, self.max as int, self.step as int, value as int, x);
            }
        }
        let v = if value < self.min {
            self.min
        } else if value > self.max {
            self.max
        } else {
            value
        };
        if self.step <= 1 {
            return v;
        }
        let offset = v - self.min;
        proof {
            let q = offset as int / self.step as int;
            assert(0 <= q * (self.step as int) <= offset) by (nonlinear_arith)
                requires
                    q == offset as int / self.step as int,
                    offset >= 0,
                    self.step > 1,
            ;
        }
        let snapped = self.min + (offset / self.step) * self.step;
        let up = snapped + self.step;
        if up <= self.max && (v - snapped) * 2 >= self.step {
            up
        } else {
            snapped
        }
    }

    /// Build from a HAL report plus the value read back for it.
    pub fn from_hal(info: &ControlCapabilityInfo, current: i64, auto: AutoSupport) -> (c: ControlCapability)
        ensures
            c@ == (CapabilityView {
                control: spec_from_name(info.name@),
                id: info.id,
                min: info.min,
                max: info.max,
                step: info.step,
                default: info.default,
                current,
                auto: auto@,
            }),
    {
        ControlCapability {
            control: CameraControl::from_name(info.name.as_str()),
            id: info.id,
            min: info.min,
            max: info.max,
            step: info.step,
            default: info.default,
            current,
            auto,
        }
    }
}

/// Clamping never leaves the control's range.
pub proof fn lemma_clamp_in_range(min: int, max: int, step: int, value: int)
    requires
        min <= max,
    ensures
        min <= spec_clamp(min, max, step, value) <= max,
{
    if step > 1 {
        let v = clamp_range(min, max, value);
        let q = (v - min) / step;
        assert(0 <= q * step <= v - min) by (nonlinear_arith)
            requires
                q == (v - min) / step,
                v - min >= 0,
                step > 1,
        ;
    }
}

/// A value the control already accepts is left as it is.
pub proof fn lemma_clamp_keeps_accepted(min: int, max: int, step: int, value: int)
    requires
        spec_accepts(min, max, step, value),
    ensures
        spec_clamp(min, max, step, value) == value,
{
    if step > 1 {
        let q = (value - min) / step;
        assert(q * step == value - min) by (nonlinear_arith)
            requires
                q == (value - min) / step,
                (value - min) % step == 0,
                step > 1,
        {
            vstd::arithmetic::div_mod::lemma_fundamental_div_mod(value - min, step);
        }
    }
}

/// Clamping produces a value the control accepts.
pub proof fn lemma_clamp_is_accepted(min: int, max: int, step: int, value: int)
    requires
        min <= max,
    ensures
        spec_accepts(min, max, step, spec_clamp(min, max, step, value)),
{
    lemma_clamp_in_range(min, max, step, value);
    if step > 1 {
        let v = clamp_range(min, max, value);
        let q = (v - min) / step;
        let snapped = min + q * step;
        assert((snapped - min) % step == 0) by {
            vstd::arithmetic::div_mod::lemma_mod_multiples_basic(q, step);
        }
        if snapped + step <= max {
            assert((snapped + step - min) % step == 0) by {
                vstd::arithmetic::div_mod::lemma_mod_multiples_basic(q + 1, step);
                assert((q + 1) * step == q * step + step) by (nonlinear_arith);
            }
        }
    } else if step == 1 {
        let r = spec_clamp(min, max, step, value);
        assert((r - min) % 1 == 0);
    }
}

/// No accepted value is nearer the clamped value than the clamp's result.
pub proof fn lemma_clamp_is_nearest(min: int, max: int, step: int, value: int, x: int)
    requires
        min <= max,
        spec_accepts(min, max, step, x),
    ensures
        dist(spec_clamp(min, max, step, value), clamp_range(min, max, value)) <= dist(
            x,
            clamp_range(min, max, value),
        ),
{
    if step > 1 {
        let v = clamp_range(min, max, value);
        let q = (v - min) / step;
        let rem = (v - min) % step;
        vstd::arithmetic::div_mod::lemma_fundamental_div_mod(v - min, step);
        vstd::arithmetic::div_mod::lemma_mod_pos_bound(v - min, step);
        assert(q * step == step * q) by (nonlinear_arith);
        let snapped = min + q * step;
        assert(v - snapped == rem);
        let j = (x - min) / step;
        vstd::arithmetic::div_mod::lemma_fundamental_div_mod(x - min, step);
        assert(x - min == step * j);
        if j <= q {
            assert(step * j <= step * q) by (nonlinear_arith)
                requires
                    j <= q,
                    step > 1,
            ;
        } else {
            assert(step * j >= step * q + step) by (nonlinear_arith)
                requires
                    j >= q + 1,
                    step > 1,
            ;
        }
    }
}
} // verus!
