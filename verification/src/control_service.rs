//! The decisions of the control service: which capability a request is
//! about, whether a write may reach the device, and what is reported when it
//! may not. The service itself, which owns the device and the command
//! channel, performs the reads and writes these decide on.

use vstd::prelude::*;
use crate::control::{
    infos_view, resolve_auto_support, spec_accepts, spec_clamp, spec_control_name, spec_from_name,
    spec_resolve_auto_support, AutoSupport, AutoView, CameraControl, CapabilityView,
    ControlCapability, clamp_in_range,
};
use crate::device::ControlCapabilityInfo;
use crate::error::{spec_hal_message, HalError, IrisError, IrisErrorView};
use crate::profile::CameraProfile;
use crate::text::{
    debug_quoted, decimal_int, push_decimal_i64, push_str, str_debug, str_eq, string_of,
};

verus! {

pub open spec fn caps_view(caps: Seq<ControlCapability>) -> Seq<CapabilityView> {
    caps.map_values(|c: ControlCapability| c@)
}

/// The capability the service reports for listing entry `i`, given what
/// reading its value gave (`None` when the read failed).
pub open spec fn spec_capability(infos: Seq<ControlCapabilityInfo>, i: int, read: Option<i64>) -> CapabilityView {
    let info = infos[i]@;
    CapabilityView {
        control: spec_from_name(info.name),
        id: info.id,
        min: info.min,
        max: info.max,
        step: info.step,
        default: info.default,
        current: match read {
            Some(v) => v,
            None => info.default,
        },
        auto: spec_resolve_auto_support(infos_view(infos), info.name),
    }
}

/// The device's controls, each paired with its automation companion. A
/// control that lists but does not read is reported at its default rather
/// than dropped: its range is still true.
pub fn capabilities_from(infos: &Vec<ControlCapabilityInfo>, reads: &Vec<Option<i64>>) -> (caps: Vec<
    ControlCapability,
>)
    requires
        reads@.len() == infos@.len(),
    ensures
        caps@.len() == infos@.len(),
        forall|i: int|
            0 <= i < infos@.len() ==> (#[trigger] caps@[i])@ == spec_capability(infos@, i, reads@[i]),
{
    let mut caps: Vec<ControlCapability> = Vec::new();
    let mut i: usize = 0;
    while i < infos.len()
        invariant
            reads@.len() == infos@.len(),
            i <= infos@.len(),
            caps@.len() == i,
            forall|j: int|
                0 <= j < i ==> (#[trigger] caps@[j])@ == spec_capability(infos@, j, reads@[j]),
        decreases infos@.len() - i,
    {
        let info = &infos[i];
        let current = match reads[i] {
            Some(v) => v,
            None => info.default,
        };
        let auto = resolve_auto_support(infos.as_slice(), info.name.as_str());
        caps.push(ControlCapability::from_hal(info, current, auto));
        i = i + 1;
    }
    caps
}

/// The first capability whose control has canonical name `want`.
pub open spec fn first_capability(caps: Seq<CapabilityView>, want: Seq<char>, i: int) -> Option<int>
    decreases caps.len() - i,
{
    if i < 0 || i >= caps.len() {
        None
    } else if spec_control_name(caps[i].control) == want {
        Some(i)
    } else {
        first_capability(caps, want, i + 1)
    }
}

pub open spec fn not_exposed(want: Seq<char>) -> IrisErrorView {
    IrisErrorView::Control("this device does not expose a "@ + str_debug(want) + " control"@)
}

/// Where in `caps` the capability for `control` is, matched by canonical
/// name, or the error naming the control the device lacks.
pub fn find_capability(caps: &Vec<ControlCapability>, control: &CameraControl) -> (r: Result<
    usize,
    IrisError,
>)
    ensures
        match r {
            Ok(i) => first_capability(caps_view(caps@), spec_control_name(control@), 0) == Some(
                i as int,
            ),
            Err(e) => first_capability(caps_view(caps@), spec_control_name(control@), 0) is None
                && e@ == not_exposed(spec_control_name(control@)),
        },
        r matches Ok(i) ==> i < caps@.len(),
{
    let want = control.name();
    let ghost cv = caps_view(caps@);
    let mut i: usize = 0;
    while i < caps.len()
        invariant
            cv == caps_view(caps@),
            want@ == spec_control_name(control@),
            i <= caps@.len(),
            first_capability(cv, want@, 0) == first_capability(cv, want@, i as int),
        decreases caps@.len() - i,
    {
        let n = caps[i].control.name();
        assert(cv[i as int] == caps@[i as int]@);
        if str_eq(n.as_str(), want.as_str()) {
            return Ok(i);
        }
        i = i + 1;
    }
    let mut m = string_of("this device does not expose a ");
    let q = debug_quoted(want.as_str());
    push_str(&mut m, q.as_str());
    push_str(&mut m, " control");
    Err(IrisError::Control(m))
}

pub open spec fn out_of_range(name: Seq<char>, value: i64, c: CapabilityView) -> IrisErrorView {
    IrisErrorView::Control(
        name + " = "@ + decimal_int(value as int) + " is out of range (min "@ + decimal_int(
            c.min as int,
        ) + " max "@ + decimal_int(c.max as int) + " step "@ + decimal_int(c.step as int)
            + "); nearest acceptable is "@ + decimal_int(
            spec_clamp(c.min as int, c.max as int, c.step as int, value as int),
        ),
    )
}

/// The inputs on which checking `value` against `c` stays within `i64`.
pub open spec fn check_in_range(c: CapabilityView, value: i64) -> bool {
    &&& c.step > 0 && c.min <= value <= c.max ==> value - c.min <= i64::MAX
    &&& !spec_accepts(c.min as int, c.max as int, c.step as int, value as int) ==> clamp_in_range(
        c.min,
        c.max,
        c.step,
        value,
    )
}

/// Whether `check_in_range` holds, for callers outside the proofs.
pub fn set_check_in_range(cap: &ControlCapability, value: i64) -> (b: bool)
    ensures
        b == check_in_range(cap@, value),
{
    let (min, max, step, v) = (cap.min as i128, cap.max as i128, cap.step as i128, value as i128);
    let lim = i64::MAX as i128;
    let accepts = min <= v && v <= max && (step <= 0 || (v - min) % step == 0);
    if step > 0 && min <= v && v <= max && v - min > lim {
        return false;
    }
    if accepts {
        return true;
    }
    if !(min <= max) || max - min > lim {
        return false;
    }
    if step > 1 {
        let c = if v < min {
            min
        } else if v > max {
            max
        } else {
            v
        };
        proof {
            let ci = c as int;
            let mi = min as int;
            let si = step as int;
            let q = (ci - mi) / si;
            assert(0 <= q * si <= ci - mi) by (nonlinear_arith)
                requires
                    q == (ci - mi) / si,
                    ci - mi >= 0,
                    si > 1,
            ;
        }
        let below = min + ((c - min) / step) * step;
        if below + step > lim || (c - below) * 2 > lim {
            return false;
        }
    }
    true
}

/// Whether `value` may be written to `cap`. A refusal names the range, the
/// step and the nearest value that would be accepted; nothing is rounded
/// silently.
pub fn check_set(cap: &ControlCapability, control: &CameraControl, value: i64) -> (r: Result<(), IrisError>)
    requires
        check_in_range(cap@, value),
    ensures
        r is Ok <==> spec_accepts(cap.min as int, cap.max as int, cap.step as int, value as int),
        r matches Err(e) ==> e@ == out_of_range(spec_control_name(control@), value, cap@),
{
    if cap.validate_value(value) {
        return Ok(());
    }
    let mut m = control.name();
    push_str(&mut m, " = ");
    push_decimal_i64(&mut m, value);
    push_str(&mut m, " is out of range (min ");
    push_decimal_i64(&mut m, cap.min);
    push_str(&mut m, " max ");
    push_decimal_i64(&mut m, cap.max);
    push_str(&mut m, " step ");
    push_decimal_i64(&mut m, cap.step);
    push_str(&mut m, "); nearest acceptable is ");
    push_decimal_i64(&mut m, cap.clamp_value(value));
    Err(IrisError::Control(m))
}

/// A device operation on `control` failed: "`verb` `name` failed: `error`"
/// (`verb` is "get", "set" or "set auto for").
pub fn control_op_failed(verb: &str, control: &CameraControl, e: &HalError) -> (r: IrisError)
    ensures
        r@ == IrisErrorView::Control(
            verb@ + " "@ + spec_control_name(control@) + " failed: "@ + spec_hal_message(e@),
        ),
{
    let mut m = string_of(verb);
    push_str(&mut m, " ");
    let n = control.name();
    push_str(&mut m, n.as_str());
    push_str(&mut m, " failed: ");
    let em = e.message();
    push_str(&mut m, em.as_str());
    IrisError::Control(m)
}

/// Listing the device's controls failed.
pub fn list_failed(e: &HalError) -> (r: IrisError)
    ensures
        r@ == IrisErrorView::Control("list_controls failed: "@ + spec_hal_message(e@)),
{
    let mut m = string_of("list_controls failed: ");
    let em = e.message();
    push_str(&mut m, em.as_str());
    IrisError::Control(m)
}

/// The write that hands `control` to (or takes it from) the camera's own
/// automation: the companion's id and 1 or 0. Only a boolean companion is
/// written; a menu companion is refused with its reason, and so is a control
/// without one.
pub open spec fn spec_auto_request(c: CapabilityView, name: Seq<char>, enabled: bool) -> Result<(u32, i64), IrisErrorView> {
    match c.auto {
        AutoView::Toggleable { companion_id, companion_name } => Ok(
            (companion_id, if enabled {
                1i64
            } else {
                0i64
            }),
        ),
        AutoView::NotToggleable { companion_name, reason } => Err(
            IrisErrorView::Control(
                name + " has an automation control ("@ + companion_name
                    + ") but it cannot be toggled blindly: "@ + reason
                    + ". Set it directly by name instead."@,
            ),
        ),
        AutoView::NoCompanion => Err(
            IrisErrorView::Control("this device exposes no automation control for "@ + name),
        ),
    }
}

pub fn auto_request(cap: &ControlCapability, control: &CameraControl, enabled: bool) -> (r: Result<
    (u32, i64),
    IrisError,
>)
    ensures
        match r {
            Ok(t) => spec_auto_request(cap@, spec_control_name(control@), enabled) == Ok::<
                (u32, i64),
                IrisErrorView,
            >(t),
            Err(e) => spec_auto_request(cap@, spec_control_name(control@), enabled) == Err::<
                (u32, i64),
                IrisErrorView,
            >(e@),
        },
{
    match &cap.auto {
        AutoSupport::Toggleable { companion_id, .. } => {
            let v: i64 = if enabled {
                1
            } else {
                0
            };
            Ok((*companion_id, v))
        },
        AutoSupport::NotToggleable { companion_name, reason } => {
            let mut m = control.name();
            push_str(&mut m, " has an automation control (");
            push_str(&mut m, companion_name.as_str());
            push_str(&mut m, ") but it cannot be toggled blindly: ");
            push_str(&mut m, reason.as_str());
            push_str(&mut m, ". Set it directly by name instead.");
            Err(IrisError::Control(m))
        },
        AutoSupport::NoCompanion => {
            let mut m = string_of("this device exposes no automation control for ");
            let n = control.name();
            push_str(&mut m, n.as_str());
            Err(IrisError::Control(m))
        },
    }
}

/// Values recorded for the first `n` capabilities, later ones winning.
pub open spec fn saved_values(caps: Seq<CapabilityView>, n: int) -> Map<Seq<char>, i64>
    decreases n,
{
    if n <= 0 {
        Map::empty()
    } else {
        saved_values(caps, n - 1).insert(spec_control_name(caps[n - 1].control), caps[n - 1].current)
    }
}

/// Automation settings recorded for the first `n` capabilities: for each one
/// with a boolean companion whose value could be read back, whether it is on.
pub open spec fn saved_autos(caps: Seq<CapabilityView>, reads: Seq<Option<i64>>, n: int) -> Map<Seq<char>, bool>
    decreases n,
{
    if n <= 0 {
        Map::empty()
    } else {
        let prev = saved_autos(caps, reads, n - 1);
        if caps[n - 1].auto is Toggleable && reads[n - 1] is Some {
            prev.insert(spec_control_name(caps[n - 1].control), reads[n - 1]->0 != 0)
        } else {
            prev
        }
    }
}

/// The profile that saves the device's current state under `name`: every
/// control's current value and, where the companion could be read, whether
/// its automation is on. `auto_reads[i]` is what reading capability `i`'s
/// companion gave (`None` when it has none or the read failed).
pub fn profile_from_capabilities(name: &str, caps: &Vec<ControlCapability>, auto_reads: &Vec<Option<i64>>) -> (p: CameraProfile)
    requires
        auto_reads@.len() == caps@.len(),
    ensures
        p.wf(),
        p.name@ == name@,
        p.description@ == Seq::<char>::empty(),
        p@.values == saved_values(caps_view(caps@), caps@.len() as int),
        p@.auto_settings == saved_autos(caps_view(caps@), auto_reads@, caps@.len() as int),
{
    let ghost cv = caps_view(caps@);
    let mut p = CameraProfile::new(name);
    let mut i: usize = 0;
    while i < caps.len()
        invariant
            cv == caps_view(caps@),
            auto_reads@.len() == caps@.len(),
            i <= caps@.len(),
            p.wf(),
            p.name@ == name@,
            p.description@ == Seq::<char>::empty(),
            p@.values == saved_values(cv, i as int),
            p@.auto_settings == saved_autos(cv, auto_reads@, i as int),
        decreases caps@.len() - i,
    {
        let cap = &caps[i];
        assert(cv[i as int] == cap@);
        p.set(&cap.control, cap.current);
        if cap.auto.is_toggleable() {
            match auto_reads[i] {
                Some(v) => p.set_auto(&cap.control, v != 0),
                None => {},
            }
        }
        i = i + 1;
    }
    p
}

} // verus!
