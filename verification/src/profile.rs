//! Named control profiles.
//!
//! A profile is keyed by control name, not by platform id, so one written on
//! Linux applies on Windows. Its entries are kept sorted by key, so the saved
//! form has a stable order and two identical profiles read identically.

use vstd::prelude::*;
use std::path::{Path, PathBuf};
use crate::control::{spec_control_name, CameraControl, ControlKind};
use crate::error::{IrisError, IrisErrorView};
use crate::text::{chars_of, debug_quoted, push_str, str_debug, string_from_chars, string_of, trim_chars, trim_seq};

verus! {

// ---- keys in order --------------------------------------------------------

/// Lexicographic order on keys by code point, which is the order of `String`.
pub open spec fn key_less(a: Seq<char>, b: Seq<char>) -> bool
    decreases a.len(),
{
    if a.len() == 0 {
        b.len() > 0
    } else if b.len() == 0 {
        false
    } else if a[0] != b[0] {
        a[0] < b[0]
    } else {
        key_less(a.drop_first(), b.drop_first())
    }
}

pub proof fn lemma_key_less_irreflexive(a: Seq<char>)
    ensures
        !key_less(a, a),
    decreases a.len(),
{
    if a.len() > 0 {
        lemma_key_less_irreflexive(a.drop_first());
    }
}

pub proof fn lemma_key_less_transitive(a: Seq<char>, b: Seq<char>, c: Seq<char>)
    requires
        key_less(a, b),
        key_less(b, c),
    ensures
        key_less(a, c),
    decreases a.len(),
{
    if a.len() > 0 && b.len() > 0 && c.len() > 0 && a[0] == b[0] && b[0] == c[0] {
        lemma_key_less_transitive(a.drop_first(), b.drop_first(), c.drop_first());
    }
}

pub proof fn lemma_key_less_total(a: Seq<char>, b: Seq<char>)
    requires
        a != b,
    ensures
        key_less(a, b) || key_less(b, a),
    decreases a.len(),
{
    if a.len() > 0 && b.len() > 0 && a[0] == b[0] {
        if a.drop_first() == b.drop_first() {
            assert(a =~= seq![a[0]] + a.drop_first());
            assert(b =~= seq![b[0]] + b.drop_first());
        }
        lemma_key_less_total(a.drop_first(), b.drop_first());
    } else if a.len() == 0 && b.len() == 0 {
        assert(a =~= b);
    }
}

fn chars_less(a: &Vec<char>, b: &Vec<char>) -> (r: bool)
    ensures
        r == key_less(a@, b@),
{
    let mut i: usize = 0;
    assert(a@.subrange(0, a@.len() as int) =~= a@);
    assert(b@.subrange(0, b@.len() as int) =~= b@);
    while i < a.len() && i < b.len() && a[i] == b[i]
        invariant
            i <= a@.len(),
            i <= b@.len(),
            key_less(a@, b@) == key_less(a@.subrange(i as int, a@.len() as int), b@.subrange(i as int, b@.len() as int)),
        decreases a@.len() - i,
    {
        assert(a@.subrange(i as int, a@.len() as int).drop_first() =~= a@.subrange(i + 1, a@.len() as int));
        assert(b@.subrange(i as int, b@.len() as int).drop_first() =~= b@.subrange(i + 1, b@.len() as int));
        i = i + 1;
    }
    if i == a.len() {
        i < b.len()
    } else if i == b.len() {
        false
    } else {
        a[i] < b[i]
    }
}

fn chars_equal(a: &Vec<char>, b: &Vec<char>) -> (r: bool)
    ensures
        r == (a@ == b@),
{
    if a.len() != b.len() {
        return false;
    }
    let mut i: usize = 0;
    while i < a.len()
        invariant
            a@.len() == b@.len(),
            i <= a@.len(),
            forall|k: int| 0 <= k < i ==> a@[k] == b@[k],
        decreases a@.len() - i,
    {
        if a[i] != b[i] {
            return false;
        }
        i = i + 1;
    }
    assert(a@ =~= b@);
    true
}

/// Entries strictly ascending by key (so no key occurs twice).
pub open spec fn sorted_keys<V>(s: Seq<(String, V)>) -> bool {
    forall|i: int, j: int| 0 <= i < j < s.len() ==> key_less(#[trigger] s[i].0@, #[trigger] s[j].0@)
}

pub open spec fn has_key<V>(s: Seq<(String, V)>, k: Seq<char>) -> bool {
    exists|i: int| 0 <= i < s.len() && #[trigger] s[i].0@ == k
}

/// A position holding `k`, when there is one.
pub open spec fn key_index<V>(s: Seq<(String, V)>, k: Seq<char>) -> int {
    choose|i: int| 0 <= i < s.len() && #[trigger] s[i].0@ == k
}

/// The entries as a map from key to value.
pub open spec fn key_map<V>(s: Seq<(String, V)>) -> Map<Seq<char>, V> {
    Map::new(|k: Seq<char>| has_key(s, k), |k: Seq<char>| s[key_index(s, k)].1)
}

/// In sorted entries, the map holds each entry's own value.
proof fn lemma_entry_value<V>(s: Seq<(String, V)>, i: int)
    requires
        sorted_keys(s),
        0 <= i < s.len(),
    ensures
        key_map(s).dom().contains(s[i].0@),
        key_map(s)[s[i].0@] == s[i].1,
{
    let k = s[i].0@;
    assert(has_key(s, k));
    let j = key_index(s, k);
    assert(key_map(s)[k] == s[j].1);
    if j != i {
        if j < i {
            assert(key_less(s[j].0@, s[i].0@));
        } else {
            assert(key_less(s[i].0@, s[j].0@));
        }
        lemma_key_less_irreflexive(k);
    }
}

/// Set `key` to `value`, keeping the entries sorted.
pub fn insert_sorted<V: Copy>(v: &mut Vec<(String, V)>, key: String, value: V)
    requires
        sorted_keys(old(v)@),
    ensures
        sorted_keys(final(v)@),
        key_map(final(v)@) == key_map(old(v)@).insert(key@, value),
{
    let kc = chars_of(key.as_str());
    let ghost k = key@;
    let mut p: usize = 0;
    let mut at_key = false;
    while p < v.len()
        invariant
            kc@ == k,
            p <= v@.len(),
            sorted_keys(v@),
            forall|j: int| 0 <= j < p ==> key_less(#[trigger] v@[j].0@, k),
            at_key ==> p < v@.len() && v@[p as int].0@ == k,
        ensures
            kc@ == k,
            p <= v@.len(),
            sorted_keys(v@),
            forall|j: int| 0 <= j < p ==> key_less(#[trigger] v@[j].0@, k),
            at_key ==> p < v@.len() && v@[p as int].0@ == k,
            !at_key && p < v@.len() ==> v@[p as int].0@ != k && !key_less(v@[p as int].0@, k),
        decreases v@.len() - p,
    {
        let cur = chars_of(v[p].0.as_str());
        if chars_equal(&cur, &kc) {
            at_key = true;
            break;
        }
        if !chars_less(&cur, &kc) {
            break;
        }
        p = p + 1;
    }
    let ghost old_s = v@;
    if at_key {
        v.set(p, (key, value));
        proof {
            let s = v@;
            assert forall|i: int, j: int| 0 <= i < j < s.len() implies key_less(
                #[trigger] s[i].0@,
                #[trigger] s[j].0@,
            ) by {
                assert(old_s[i].0@ == s[i].0@ || i == p);
                assert(old_s[j].0@ == s[j].0@ || j == p);
                assert(key_less(old_s[i].0@, old_s[j].0@));
            }
            assert forall|kk: Seq<char>| #[trigger] key_map(s).dom().contains(kk) <==> key_map(
                old_s,
            ).insert(k, value).dom().contains(kk) by {
                if has_key(s, kk) {
                    let i = choose|i: int| 0 <= i < s.len() && #[trigger] s[i].0@ == kk;
                    if i != p {
                        assert(old_s[i].0@ == kk);
                    }
                }
                if has_key(old_s, kk) {
                    let i = choose|i: int| 0 <= i < old_s.len() && #[trigger] old_s[i].0@ == kk;
                    if i != p {
                        assert(s[i].0@ == kk);
                    }
                }
                if kk == k {
                    assert(s[p as int].0@ == kk);
                }
            }
            assert forall|kk: Seq<char>| #[trigger] key_map(s).dom().contains(kk) implies key_map(
                s,
            )[kk] == key_map(old_s).insert(k, value)[kk] by {
                let i = choose|i: int| 0 <= i < s.len() && #[trigger] s[i].0@ == kk;
                lemma_entry_value(s, i);
                if i != p {
                    assert(old_s[i] == s[i]);
                    lemma_entry_value(old_s, i);
                    if kk == k {
                        if i < p {
                            assert(key_less(s[i].0@, s[p as int].0@));
                        } else {
                            assert(key_less(s[p as int].0@, s[i].0@));
                        }
                        lemma_key_less_irreflexive(k);
                    }
                }
            }
            assert(key_map(s) =~= key_map(old_s).insert(k, value));
        }
    } else {
        proof {
            if p < old_s.len() {
                assert(old_s[p as int].0@ != k);
                lemma_key_less_total(old_s[p as int].0@, k);
            }
        }
        v.insert(p, (key, value));
        proof {
            let s = v@;
            assert forall|i: int, j: int| 0 <= i < j < s.len() implies key_less(
                #[trigger] s[i].0@,
                #[trigger] s[j].0@,
            ) by {
                if j < p {
                    assert(key_less(old_s[i].0@, old_s[j].0@));
                } else if j == p {
                    assert(key_less(old_s[i].0@, k));
                } else if i == p {
                    if j - 1 > p {
                        assert(key_less(old_s[p as int].0@, old_s[j - 1].0@));
                        lemma_key_less_transitive(k, old_s[p as int].0@, old_s[j - 1].0@);
                    }
                } else if i < p {
                    assert(key_less(old_s[i].0@, k));
                    if j - 1 > p {
                        assert(key_less(old_s[p as int].0@, old_s[j - 1].0@));
                        lemma_key_less_transitive(k, old_s[p as int].0@, old_s[j - 1].0@);
                    }
                    lemma_key_less_transitive(old_s[i].0@, k, s[j].0@);
                } else {
                    assert(key_less(old_s[i - 1].0@, old_s[j - 1].0@));
                }
            }
            assert forall|kk: Seq<char>| #[trigger] key_map(s).dom().contains(kk) <==> key_map(
                old_s,
            ).insert(k, value).dom().contains(kk) by {
                if has_key(s, kk) {
                    let i = choose|i: int| 0 <= i < s.len() && #[trigger] s[i].0@ == kk;
                    if i < p {
                        assert(old_s[i].0@ == kk);
                    } else if i > p {
                        assert(old_s[i - 1].0@ == kk);
                    }
                }
                if has_key(old_s, kk) {
                    let i = choose|i: int| 0 <= i < old_s.len() && #[trigger] old_s[i].0@ == kk;
                    if i < p {
                        assert(s[i].0@ == kk);
                    } else {
                        assert(s[i + 1].0@ == kk);
                    }
                }
                if kk == k {
                    assert(s[p as int].0@ == kk);
                }
            }
            assert forall|kk: Seq<char>| #[trigger] key_map(s).dom().contains(kk) implies key_map(
                s,
            )[kk] == key_map(old_s).insert(k, value)[kk] by {
                let i = choose|i: int| 0 <= i < s.len() && #[trigger] s[i].0@ == kk;
                lemma_entry_value(s, i);
                if i != p && kk == k {
                    if i < p {
                        assert(key_less(s[i].0@, s[p as int].0@));
                    } else {
                        assert(key_less(s[p as int].0@, s[i].0@));
                    }
                    lemma_key_less_irreflexive(k);
                }
                if i < p {
                    assert(old_s[i] == s[i]);
                    lemma_entry_value(old_s, i);
                } else if i > p {
                    assert(old_s[i - 1] == s[i]);
                    lemma_entry_value(old_s, i - 1);
                }
            }
            assert(key_map(s) =~= key_map(old_s).insert(k, value));
        }
    }
}

/// The value stored under `key`.
pub fn lookup_sorted<V: Copy>(v: &Vec<(String, V)>, key: &str) -> (r: Option<V>)
    requires
        sorted_keys(v@),
    ensures
        r == (if key_map(v@).dom().contains(key@) {
            Some(key_map(v@)[key@])
        } else {
            None
        }),
{
    let kc = chars_of(key);
    let mut i: usize = 0;
    while i < v.len()
        invariant
            kc@ == key@,
            sorted_keys(v@),
            i <= v@.len(),
            forall|j: int| 0 <= j < i ==> (#[trigger] v@[j]).0@ != key@,
        decreases v@.len() - i,
    {
        let cur = chars_of(v[i].0.as_str());
        if chars_equal(&cur, &kc) {
            proof {
                lemma_entry_value(v@, i as int);
            }
            return Some(v[i].1);
        }
        i = i + 1;
    }
    None
}

// ---- profiles -------------------------------------------------------------

/// A saved set of control values, keyed by control name.
#[derive(Debug, Clone, PartialEq, Eq)]
pub struct CameraProfile {
    pub name: String,
    /// Control name to value, ascending by name.
    pub values: Vec<(String, i64)>,
    /// Control name to "automation on", ascending by name.
    pub auto_settings: Vec<(String, bool)>,
    pub description: String,
}

pub struct ProfileView {
    pub name: Seq<char>,
    pub values: Map<Seq<char>, i64>,
    pub auto_settings: Map<Seq<char>, bool>,
    pub description: Seq<char>,
}

impl View for CameraProfile {
    type V = ProfileView;

    open spec fn view(&self) -> ProfileView {
        ProfileView {
            name: self.name@,
            values: key_map(self.values@),
            auto_settings: key_map(self.auto_settings@),
            description: self.description@,
        }
    }
}

impl Default for CameraProfile {
    fn default() -> (p: CameraProfile)
        ensures
            p.wf(),
            p.name@ == Seq::<char>::empty(),
            p.values@.len() == 0,
            p.auto_settings@.len() == 0,
            p.description@ == Seq::<char>::empty(),
    {
        CameraProfile {
            name: String::new(),
            values: Vec::new(),
            auto_settings: Vec::new(),
            description: String::new(),
        }
    }
}

/// What a profile map holds for a control: the entry under its canonical name.
pub open spec fn recorded<V>(m: Map<Seq<char>, V>, c: ControlKind) -> Option<V> {
    if m.dom().contains(spec_control_name(c)) {
        Some(m[spec_control_name(c)])
    } else {
        None
    }
}

/// A control read back after it is set gives the value set, and setting one
/// control leaves what is read for a control of another name as it was.
pub proof fn lemma_get_after_set<V>(m: Map<Seq<char>, V>, c: ControlKind, d: ControlKind, v: V)
    ensures
        recorded(m.insert(spec_control_name(c), v), c) == Some(v),
        spec_control_name(d) != spec_control_name(c) ==> recorded(m.insert(spec_control_name(c), v), d)
            == recorded(m, d),
{
}

impl CameraProfile {
    /// Both maps hold their entries ascending by key, each key once.
    pub open spec fn wf(&self) -> bool {
        sorted_keys(self.values@) && sorted_keys(self.auto_settings@)
    }

    pub fn new(name: &str) -> (p: CameraProfile)
        ensures
            p.wf(),
            p.name@ == name@,
            p.values@.len() == 0,
            p.auto_settings@.len() == 0,
            p.description@ == Seq::<char>::empty(),
            p@.values == Map::<Seq<char>, i64>::empty(),
            p@.auto_settings == Map::<Seq<char>, bool>::empty(),
    {
        let p = CameraProfile {
            name: string_of(name),
            values: Vec::new(),
            auto_settings: Vec::new(),
            description: String::new(),
        };
        assert(key_map(p.values@) =~= Map::<Seq<char>, i64>::empty());
        assert(key_map(p.auto_settings@) =~= Map::<Seq<char>, bool>::empty());
        p
    }

    /// Record `value` for `control`, under its canonical name.
    pub fn set(&mut self, control: &CameraControl, value: i64)
        requires
            old(self).wf(),
        ensures
            final(self).wf(),
            final(self)@.values == old(self)@.values.insert(spec_control_name(control@), value),
            final(self)@.auto_settings == old(self)@.auto_settings,
            final(self).name == old(self).name,
            final(self).description == old(self).description,
    {
        insert_sorted(&mut self.values, control.name(), value);
    }

    /// Record whether `control`'s automation is on.
    pub fn set_auto(&mut self, control: &CameraControl, enabled: bool)
        requires
            old(self).wf(),
        ensures
            final(self).wf(),
            final(self)@.auto_settings == old(self)@.auto_settings.insert(
                spec_control_name(control@),
                enabled,
            ),
            final(self)@.values == old(self)@.values,
            final(self).name == old(self).name,
            final(self).description == old(self).description,
    {
        insert_sorted(&mut self.auto_settings, control.name(), enabled);
    }

    pub fn get(&self, control: &CameraControl) -> (r: Option<i64>)
        requires
            self.wf(),
        ensures
            r == recorded(self@.values, control@),
    {
        let n = control.name();
        lookup_sorted(&self.values, n.as_str())
    }

    pub fn get_auto(&self, control: &CameraControl) -> (r: Option<bool>)
        requires
            self.wf(),
        ensures
            r == recorded(self@.auto_settings, control@),
    {
        let n = control.name();
        lookup_sorted(&self.auto_settings, n.as_str())
    }

    /// No control value and no automation setting recorded.
    pub fn is_empty(&self) -> (b: bool)
        ensures
            b == (self.values@.len() == 0 && self.auto_settings@.len() == 0),
            b ==> self@.values.dom() =~= Set::<Seq<char>>::empty() && self@.auto_settings.dom()
                =~= Set::<Seq<char>>::empty(),
    {
        self.values.len() == 0 && self.auto_settings.len() == 0
    }
}

// ---- listing the store ------------------------------------------------------

/// The profile a file in the store holds: the file's stem when its extension
/// is `json`. A file named just `.json` has no extension, so no profile.
pub open spec fn json_stem(file: Seq<char>) -> Option<Seq<char>> {
    if file.len() > 5 && file.subrange(file.len() - 5, file.len() as int) == ".json"@ {
        Some(file.subrange(0, file.len() - 5))
    } else {
        None
    }
}

/// The profile names among the file names `files`, in their order.
pub open spec fn stems_of(files: Seq<String>) -> Seq<Seq<char>>
    decreases files.len(),
{
    if files.len() == 0 {
        Seq::empty()
    } else {
        let rest = stems_of(files.drop_last());
        match json_stem(files.last()@) {
            Some(s) => rest.push(s),
            None => rest,
        }
    }
}

pub open spec fn views_of(v: Seq<String>) -> Seq<Seq<char>> {
    v.map_values(|s: String| s@)
}

/// Ascending by code point, equal names allowed.
pub open spec fn names_sorted(v: Seq<String>) -> bool {
    forall|i: int, j: int| 0 <= i < j < v.len() ==> !key_less(#[trigger] v[j]@, #[trigger] v[i]@)
}

proof fn lemma_not_less_transitive(a: Seq<char>, b: Seq<char>, c: Seq<char>)
    requires
        !key_less(a, b),
        !key_less(b, c),
    ensures
        !key_less(a, c),
{
    if key_less(a, c) {
        if a == b {
        } else {
            lemma_key_less_total(a, b);
            lemma_key_less_transitive(b, a, c);
        }
    }
}

proof fn lemma_key_less_asymmetric(a: Seq<char>, b: Seq<char>)
    requires
        key_less(a, b),
    ensures
        !key_less(b, a),
{
    if key_less(b, a) {
        lemma_key_less_transitive(a, b, a);
        lemma_key_less_irreflexive(a);
    }
}

fn json_stem_exec(file: &str) -> (r: Option<String>)
    ensures
        match r {
            Some(s) => json_stem(file@) == Some(s@),
            None => json_stem(file@) is None,
        },
{
    proof {
        reveal_strlit(".json");
    }
    let c = chars_of(file);
    let n = c.len();
    if n <= 5 {
        return None;
    }
    if !(c[n - 5] == '.' && c[n - 4] == 'j' && c[n - 3] == 's' && c[n - 2] == 'o' && c[n - 1] == 'n') {
        proof {
            if c@.subrange(n - 5, n as int) == ".json"@ {
                assert(c@.subrange(n - 5, n as int)[0] == c@[n - 5]);
                assert(c@.subrange(n - 5, n as int)[1] == c@[n - 4]);
                assert(c@.subrange(n - 5, n as int)[2] == c@[n - 3]);
                assert(c@.subrange(n - 5, n as int)[3] == c@[n - 2]);
                assert(c@.subrange(n - 5, n as int)[4] == c@[n - 1]);
            }
        }
        return None;
    }
    assert(c@.subrange(n - 5, n as int) =~= ".json"@);
    let mut stem: Vec<char> = Vec::new();
    let mut i: usize = 0;
    while i < n - 5
        invariant
            n == c@.len(),
            n > 5,
            i <= n - 5,
            stem@ == c@.subrange(0, i as int),
        decreases n - 5 - i,
    {
        stem.push(c[i]);
        i = i + 1;
        assert(stem@ =~= c@.subrange(0, i as int));
    }
    Some(string_from_chars(&stem))
}

/// The names a store holding the files `files` lists: the stems of its
/// `.json` files, sorted.
pub fn profile_names(files: &Vec<String>) -> (names: Vec<String>)
    ensures
        names_sorted(names@),
        views_of(names@).to_multiset() == stems_of(files@).to_multiset(),
{
    let mut out: Vec<String> = Vec::new();
    let mut i: usize = 0;
    proof {
        assert(views_of(out@) =~= Seq::<Seq<char>>::empty());
        assert(files@.subrange(0, 0) =~= Seq::<String>::empty());
    }
    while i < files.len()
        invariant
            i <= files@.len(),
            names_sorted(out@),
            views_of(out@).to_multiset() == stems_of(files@.subrange(0, i as int)).to_multiset(),
        decreases files@.len() - i,
    {
        let ghost prefix = files@.subrange(0, i as int);
        proof {
            assert(files@.subrange(0, i + 1).drop_last() =~= prefix);
            assert(files@.subrange(0, i + 1).last() == files@[i as int]);
        }
        match json_stem_exec(files[i].as_str()) {
            None => {
                assert(stems_of(files@.subrange(0, i + 1)) == stems_of(prefix));
            },
            Some(x) => {
                proof {
                    assert(stems_of(files@.subrange(0, i + 1)) == stems_of(prefix).push(x@));
                    vstd::seq_lib::to_multiset_build(stems_of(prefix), x@);
                }
                let xc = chars_of(x.as_str());
                let mut p: usize = out.len();
                while p > 0 && chars_less(&xc, &chars_of(out[p - 1].as_str()))
                    invariant
                        p <= out@.len(),
                        xc@ == x@,
                        forall|k: int| p <= k < out@.len() ==> key_less(x@, #[trigger] out@[k]@),
                    decreases p,
                {
                    p = p - 1;
                }
                let ghost before = out@;
                out.insert(p, x);
                proof {
                    let after = out@;
                    assert(views_of(after) =~= views_of(before).insert(p as int, x@));
                    vstd::seq_lib::to_multiset_insert(views_of(before), p as int, x@);
                    assert forall|a: int, b: int| 0 <= a < b < after.len() implies !key_less(
                        #[trigger] after[b]@,
                        #[trigger] after[a]@,
                    ) by {
                        if b < p {
                            assert(after[a] == before[a] && after[b] == before[b]);
                        } else if b == p {
                            assert(!key_less(x@, before[p - 1]@));
                            if a < p - 1 {
                                assert(!key_less(before[p - 1]@, before[a]@));
                                lemma_not_less_transitive(x@, before[p - 1]@, before[a]@);
                            }
                        } else if a < p {
                            assert(after[b] == before[b - 1] && after[a] == before[a]);
                        } else if a == p {
                            assert(key_less(x@, before[b - 1]@));
                            lemma_key_less_asymmetric(x@, before[b - 1]@);
                        } else {
                            assert(after[b] == before[b - 1] && after[a] == before[a - 1]);
                        }
                    }
                }
            },
        }
        i = i + 1;
    }
    proof {
        assert(files@.subrange(0, i as int) =~= files@);
    }
    out
}

// ---- the store's names ----------------------------------------------------

/// Whether `s` holds `..` anywhere.
pub open spec fn has_dot_dot(s: Seq<char>) -> bool {
    exists|i: int| 0 <= i < s.len() - 1 && #[trigger] s[i] == '.' && s[i + 1] == '.'
}

/// The characters that make a name a path rather than a plain name.
pub open spec fn has_path_syntax(s: Seq<char>) -> bool {
    s.contains('/') || s.contains('\\') || has_dot_dot(s) || s.contains('\0')
}

/// The file a profile name is stored under, given how many path components
/// the platform parses the trimmed name into. Only a plain name, one
/// component with no separator or traversal, is accepted: a profile name
/// becomes a file name, and `../../etc/x` would otherwise escape the store.
pub open spec fn spec_profile_file(name: Seq<char>, components: nat) -> Result<Seq<char>, IrisErrorView> {
    let t = trim_seq(name);
    if t.len() == 0 {
        Err(IrisErrorView::Control("profile name is empty"@))
    } else if has_path_syntax(t) || components != 1 {
        Err(
            IrisErrorView::Control(
                "profile name "@ + str_debug(t)
                    + " is not a plain name \u{2014} path separators and traversal are refused"@,
            ),
        )
    } else {
        Ok(t + ".json"@)
    }
}

fn has_path_syntax_exec(t: &Vec<char>) -> (b: bool)
    ensures
        b == has_path_syntax(t@),
{
    let mut i: usize = 0;
    while i < t.len()
        invariant
            i <= t@.len(),
            forall|j: int| 0 <= j < i ==> #[trigger] t@[j] != '/' && t@[j] != '\\' && t@[j] != '\0',
            forall|j: int| 0 <= j < i && j + 1 < t@.len() ==> !(#[trigger] t@[j] == '.' && t@[j + 1] == '.'),
        decreases t@.len() - i,
    {
        let c = t[i];
        if c == '/' || c == '\\' || c == '\0' {
            assert(t@[i as int] == c);
            return true;
        }
        if c == '.' && i + 1 < t.len() && t[i + 1] == '.' {
            assert(t@[i as int] == '.' && t@[i + 1] == '.');
            return true;
        }
        i = i + 1;
    }
    assert(!t@.contains('/'));
    assert(!t@.contains('\\'));
    assert(!t@.contains('\0'));
    false
}

/// How many components `std::path::Path` parses `s` into. The count is
/// platform-dependent (a drive prefix such as `C:` is a component of its own
/// on Windows only), but a non-empty text with no `/`, `\` or `:` is one
/// component on every platform: with no separator there is nothing to split
/// at, and with no `:` or `\` there is no Windows prefix.
#[verifier::external_body]
fn path_component_count(s: &str) -> (n: usize)
    ensures
        s@.len() > 0 && !s@.contains('/') && !s@.contains('\\') && !s@.contains(':') ==> n == 1,
{
    Path::new(s).components().count()
}

/// The file name for a profile, given the component count of its trimmed
/// name: `<trimmed>.json`, or the reason the name is refused.
pub fn profile_file_name(name: &str, components: usize) -> (r: Result<String, IrisError>)
    ensures
        match r {
            Ok(f) => spec_profile_file(name@, components as nat) == Ok::<Seq<char>, IrisErrorView>(f@),
            Err(e) => spec_profile_file(name@, components as nat) == Err::<Seq<char>, IrisErrorView>(e@),
        },
{
    let t = trim_chars(name);
    if t.len() == 0 {
        return Err(IrisError::Control(string_of("profile name is empty")));
    }
    let ts = string_from_chars(&t);
    if has_path_syntax_exec(&t) || components != 1 {
        let mut m = string_of("profile name ");
        let q = debug_quoted(ts.as_str());
        push_str(&mut m, q.as_str());
        push_str(&mut m, " is not a plain name \u{2014} path separators and traversal are refused");
        return Err(IrisError::Control(m));
    }
    let mut f = ts;
    push_str(&mut f, ".json");
    Ok(f)
}

/// The file name for a profile: the trimmed name plus `.json`. An empty name
/// and a name with path syntax are refused whatever the platform; on a name
/// without them the platform's path parser has the last word.
pub fn safe_profile_file_name(name: &str) -> (r: Result<String, IrisError>)
    ensures
        trim_seq(name@).len() == 0 ==> (r matches Err(e) && e@ == IrisErrorView::Control(
            "profile name is empty"@,
        )),
        trim_seq(name@).len() > 0 && has_path_syntax(trim_seq(name@)) ==> r is Err,
        r matches Ok(f) ==> f@ == trim_seq(name@) + ".json"@,
        r matches Ok(_) ==> trim_seq(name@).len() > 0 && !has_path_syntax(trim_seq(name@)),
        trim_seq(name@).len() > 0 && !has_path_syntax(trim_seq(name@)) && !trim_seq(name@).contains(':')
            ==> (r matches Ok(f) && f@ == trim_seq(name@) + ".json"@),
        exists|c: nat|
            match r {
                Ok(f) => #[trigger] spec_profile_file(name@, c) == Ok::<Seq<char>, IrisErrorView>(f@),
                Err(e) => #[trigger] spec_profile_file(name@, c) == Err::<Seq<char>, IrisErrorView>(e@),
            },
{
    let t = trim_chars(name);
    let ts = string_from_chars(&t);
    let c = path_component_count(ts.as_str());
    let r = profile_file_name(name, c);
    assert(match r {
        Ok(f) => spec_profile_file(name@, c as nat) == Ok::<Seq<char>, IrisErrorView>(f@),
        Err(e) => spec_profile_file(name@, c as nat) == Err::<Seq<char>, IrisErrorView>(e@),
    });
    r
}

#[verifier::external_type_specification]
#[verifier::external_body]
pub struct ExPathBuf(PathBuf);

/// A directory of profiles, one JSON file each.
pub struct ProfileStore {
    profiles_dir: PathBuf,
}

impl ProfileStore {
    /// The directory the store keeps its files in.
    pub closed spec fn directory(&self) -> PathBuf {
        self.profiles_dir
    }

    pub fn new(profiles_dir: PathBuf) -> (s: ProfileStore)
        ensures
            s.directory() == profiles_dir,
    {
        ProfileStore { profiles_dir }
    }

    pub fn dir(&self) -> (d: &PathBuf)
        ensures
            *d == self.directory(),
    {
        &self.profiles_dir
    }
}

} // verus!
