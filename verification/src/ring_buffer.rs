//! A fixed-capacity ring of recent frames, for `Pull` consumers.
//!
//! In-process and copying: each write copies the frame's bytes into a slot, so
//! several readers can read at their own pace.

use vstd::prelude::*;
use vstd::arithmetic::div_mod::{
    lemma_add_mod_noop_right,
    lemma_mod_add_multiples_vanish,
    lemma_mod_equivalence,
    lemma_small_mod,
};
use crate::capture::{copy_bytes, CaptureFrame, FrameView};
use crate::device::PixelFormat;

verus! {

/// One frame's worth of the ring. Sequence 0 marks an empty slot: frames are
/// numbered from 1.
#[derive(Debug)]
pub struct RingSlot {
    pub sequence: u64,
    pub data: Vec<u8>,
    pub width: u32,
    pub height: u32,
    /// The pixel format of `data`; the bytes are meaningless without it.
    pub format: PixelFormat,
    pub timestamp_us: u64,
}

pub struct SlotView {
    pub sequence: u64,
    pub data: Seq<u8>,
    pub width: u32,
    pub height: u32,
    pub format: PixelFormat,
    pub timestamp_us: u64,
}

impl View for RingSlot {
    type V = SlotView;

    open spec fn view(&self) -> SlotView {
        SlotView {
            sequence: self.sequence,
            data: self.data@,
            width: self.width,
            height: self.height,
            format: self.format,
            timestamp_us: self.timestamp_us,
        }
    }
}

pub open spec fn empty_slot() -> SlotView {
    SlotView {
        sequence: 0,
        data: Seq::empty(),
        width: 0,
        height: 0,
        format: PixelFormat::Rgb24,
        timestamp_us: 0,
    }
}

/// The slot a written frame becomes.
pub open spec fn slot_of(f: FrameView) -> SlotView {
    SlotView {
        sequence: f.sequence,
        data: f.data,
        width: f.width,
        height: f.height,
        format: f.format,
        timestamp_us: f.timestamp_us,
    }
}

impl Default for RingSlot {
    fn default() -> (s: RingSlot)
        ensures
            s@ == empty_slot(),
    {
        RingSlot {
            sequence: 0,
            data: Vec::new(),
            width: 0,
            height: 0,
            format: PixelFormat::Rgb24,
            timestamp_us: 0,
        }
    }
}

impl RingSlot {
    pub fn is_empty(&self) -> (b: bool)
        ensures
            b == (self.sequence == 0),
    {
        self.sequence == 0
    }
}

/// Number of non-empty slots.
pub open spec fn count_held(s: Seq<SlotView>) -> nat
    decreases s.len(),
{
    if s.len() == 0 {
        0
    } else {
        count_held(s.drop_last()) + if s.last().sequence != 0 {
            1nat
        } else {
            0nat
        }
    }
}

pub open spec fn all_numbered(h: Seq<SlotView>) -> bool {
    forall|k: int| 0 <= k < h.len() ==> (#[trigger] h[k]).sequence != 0
}

pub open spec fn min_nat(a: nat, b: nat) -> nat {
    if a <= b {
        a
    } else {
        b
    }
}

/// A ring of the most recent frames.
pub struct RingBuffer {
    slots: Vec<RingSlot>,
    write_idx: usize,
    total_written: u64,
    overflow_count: u64,
    /// Every frame written so far, oldest first.
    history: Ghost<Seq<SlotView>>,
}

pub struct RingView {
    pub slots: Seq<SlotView>,
    pub write_idx: int,
    pub total_written: u64,
    pub overflow_count: u64,
    pub history: Seq<SlotView>,
}

impl View for RingBuffer {
    type V = RingView;

    closed spec fn view(&self) -> RingView {
        RingView {
            slots: self.slots@.map_values(|s: RingSlot| s@),
            write_idx: self.write_idx as int,
            total_written: self.total_written,
            overflow_count: self.overflow_count,
            history: self.history@,
        }
    }
}

/// The raw slot `read_latest` looks at: the one just behind the write cursor.
pub open spec fn spec_read_latest(r: RingView) -> Option<SlotView> {
    if r.total_written == 0 {
        None
    } else {
        let idx = if r.write_idx == 0 {
            r.slots.len() - 1
        } else {
            r.write_idx - 1
        };
        if r.slots[idx].sequence != 0 {
            Some(r.slots[idx])
        } else {
            None
        }
    }
}

/// The raw slot `read_by_age` looks at: `index` slots after the oldest held.
pub open spec fn spec_read_by_age(r: RingView, index: int) -> Option<SlotView> {
    let cap = r.slots.len() as int;
    let held = count_held(r.slots) as int;
    if index >= cap || index >= held {
        None
    } else {
        let start = (r.write_idx + cap - held) % cap;
        let slot = r.slots[(start + index) % cap];
        if slot.sequence != 0 {
            Some(slot)
        } else {
            None
        }
    }
}

/// The frames the ring holds, oldest first: the last `capacity` written.
pub open spec fn held_frames(r: RingView) -> Seq<SlotView> {
    let n = r.history.len();
    let cap = r.slots.len();
    r.history.subrange(n - min_nat(n, cap), n as int)
}

pub open spec fn as_option(s: Option<&RingSlot>) -> Option<SlotView> {
    match s {
        Some(x) => Some(x@),
        None => None,
    }
}

impl RingBuffer {
    /// The ring's internal consistency: the write cursor follows the write
    /// count, and each slot holds the newest written frame whose position maps
    /// to it, or nothing.
    pub closed spec fn wf(&self) -> bool {
        let cap = self.slots@.len() as int;
        let n = self.total_written as int;
        let h = self.history@;
        &&& cap >= 2
        &&& h.len() == n
        &&& self.write_idx as int == n % cap
        &&& self.overflow_count <= self.total_written
        &&& all_numbered(h) ==> self.overflow_count == n - min_nat(n as nat, cap as nat)
        &&& forall|k: int|
            0 <= k < n && n - cap <= k ==> #[trigger] self.slots@[k % cap]@ == h[k]
        &&& forall|j: int| n <= j < cap ==> #[trigger] self.slots@[j]@ == empty_slot()
    }

    /// A ring of `capacity` empty slots. At least 2: a ring of one cannot hold
    /// a frame while the next is written.
    pub fn new(capacity: usize) -> (r: RingBuffer)
        requires
            capacity >= 2,
        ensures
            r.wf(),
            r@.slots.len() == capacity,
            r@.history == Seq::<SlotView>::empty(),
            r@.total_written == 0,
            r@.overflow_count == 0,
            r@.write_idx == 0,
            forall|j: int| 0 <= j < capacity ==> #[trigger] r@.slots[j] == empty_slot(),
    {
        let mut slots: Vec<RingSlot> = Vec::new();
        let mut i: usize = 0;
        while i < capacity
            invariant
                i <= capacity,
                slots@.len() == i,
                forall|j: int| 0 <= j < i ==> #[trigger] slots@[j]@ == empty_slot(),
            decreases capacity - i,
        {
            slots.push(RingSlot::default());
            i = i + 1;
        }
        let r = RingBuffer {
            slots,
            write_idx: 0,
            total_written: 0,
            overflow_count: 0,
            history: Ghost(Seq::empty()),
        };
        proof {
            lemma_small_mod(0, capacity as nat);
        }
        r
    }

    /// Write a frame, overwriting the oldest slot once the ring is full. An
    /// overwrite of a non-empty slot counts as an overflow.
    pub fn write(&mut self, frame: &CaptureFrame)
        requires
            old(self).wf(),
            old(self)@.total_written < u64::MAX,
        ensures
            final(self).wf(),
            final(self)@.slots == old(self)@.slots.update(old(self)@.write_idx, slot_of(frame@)),
            final(self)@.write_idx == (old(self)@.write_idx + 1) % (old(self)@.slots.len() as int),
            final(self)@.total_written == old(self)@.total_written + 1,
            final(self)@.overflow_count == old(self)@.overflow_count + if old(
                self,
            )@.slots[old(self)@.write_idx].sequence != 0 {
                1int
            } else {
                0int
            },
            final(self)@.history == old(self)@.history.push(slot_of(frame@)),
    {
        let ghost old_slots = self.slots@;
        let ghost n = self.total_written as int;
        let ghost cap = self.slots@.len() as int;
        let capacity = self.slots.len();
        let idx = self.write_idx;
        if !self.slots[idx].is_empty() {
            self.overflow_count = self.overflow_count + 1;
        }
        let slot = RingSlot {
            sequence: frame.sequence,
            data: copy_bytes(&frame.data),
            width: frame.width,
            height: frame.height,
            format: frame.format,
            timestamp_us: frame.timestamp_us,
        };
        self.slots.set(idx, slot);
        self.write_idx = (self.write_idx + 1) % capacity;
        self.total_written = self.total_written + 1;
        self.history = Ghost(self.history@.push(slot_of(frame@)));
        proof {
            let n1 = n + 1;
            let h = self.history@;
            assert(self.write_idx as int == n1 % cap) by {
                lemma_add_mod_noop_right(1, n, cap);
                lemma_small_mod((n % cap) as nat, cap as nat);
                if n % cap + 1 < cap {
                    lemma_small_mod((n % cap + 1) as nat, cap as nat);
                } else {
                    assert(n % cap + 1 == cap);
                }
            }
            assert forall|k: int| 0 <= k < n1 && n1 - cap <= k implies #[trigger] self.slots@[k
                % cap]@ == h[k] by {
                if k < n {
                    lemma_distinct_residues(k, n, cap);
                }
            }
            assert forall|j: int| n1 <= j < cap implies #[trigger] self.slots@[j]@
                == empty_slot() by {
                lemma_small_mod(n as nat, cap as nat);
            }
            if all_numbered(h) {
                assert(all_numbered(old(self)@.history)) by {
                    assert forall|k: int| 0 <= k < n implies (#[trigger] old(self)@.history[k]).sequence != 0 by {
                        assert(h[k] == old(self)@.history[k]);
                    }
                }
                assert(h[n] == slot_of(frame@));
                if n >= cap {
                    let k = n - cap;
                    lemma_mod_add_multiples_vanish(k, cap);
                    assert(old_slots[k % cap]@ == old(self)@.history[k]);
                    assert(old_slots[n % cap].sequence != 0);
                } else {
                    lemma_small_mod(n as nat, cap as nat);
                    assert(old_slots[n]@ == empty_slot());
                }
            }
        }
    }

    /// The most recently written frame, unless its slot reads as empty.
    pub fn read_latest(&self) -> (res: Option<&RingSlot>)
        requires
            self.wf(),
        ensures
            as_option(res) == spec_read_latest(self@),
            all_numbered(self@.history) && self@.history.len() > 0 ==> as_option(res) == Some(
                self@.history.last(),
            ),
    {
        if self.total_written == 0 {
            return None;
        }
        let idx = if self.write_idx == 0 {
            self.slots.len() - 1
        } else {
            self.write_idx - 1
        };
        proof {
            let n = self.total_written as int;
            let cap = self.slots@.len() as int;
            lemma_previous_index(n, cap);
            assert(self.slots@[(n - 1) % cap]@ == self.history@[n - 1]);
        }
        let slot = &self.slots[idx];
        if slot.is_empty() {
            None
        } else {
            Some(slot)
        }
    }

    /// Read by age: 0 is the oldest frame still held, not raw slot 0.
    pub fn read_by_age(&self, index: usize) -> (res: Option<&RingSlot>)
        requires
            self.wf(),
        ensures
            as_option(res) == spec_read_by_age(self@, index as int),
            all_numbered(self@.history) ==> as_option(res) == if index < held_frames(self@).len() {
                Some(held_frames(self@)[index as int])
            } else {
                None
            },
    {
        let capacity = self.slots.len();
        if index >= capacity {
            proof {
                if all_numbered(self@.history) {
                    self.lemma_held_count();
                }
            }
            return None;
        }
        let held = self.len();
        if index >= held {
            proof {
                if all_numbered(self@.history) {
                    self.lemma_held_count();
                }
            }
            return None;
        }
        // The oldest held frame sits `held` slots behind the write cursor;
        // both steps wrap without leaving `0..capacity`.
        let start = if self.write_idx >= held {
            self.write_idx - held
        } else {
            self.write_idx + (capacity - held)
        };
        let pos = if start < capacity - index {
            start + index
        } else {
            start - (capacity - index)
        };
        proof {
            let cap = capacity as int;
            let w = self.write_idx as int;
            let s0 = w + cap - held;
            if w >= held {
                lemma_mod_add_multiples_vanish(w - held, cap);
                lemma_small_mod((w - held) as nat, cap as nat);
            } else {
                lemma_small_mod(s0 as nat, cap as nat);
            }
            assert(start as int == s0 % cap);
            if (start as int) < cap - index {
                lemma_small_mod((start + index) as nat, cap as nat);
            } else {
                lemma_mod_add_multiples_vanish(start + index - cap, cap);
                lemma_small_mod((start + index - cap) as nat, cap as nat);
            }
            assert(pos as int == (start + index) % cap);
        }
        proof {
            if all_numbered(self@.history) {
                self.lemma_held_count();
                let n = self.total_written as int;
                let cap = capacity as int;
                let k = n - held + index;
                lemma_age_position(n, cap, held as int, index as int);
                assert(pos as int == k % cap);
                assert(self.slots@[k % cap]@ == self.history@[k]);
                assert(held_frames(self@)[index as int] == self.history@[k]);
            }
        }
        let slot = &self.slots[pos];
        if slot.is_empty() {
            None
        } else {
            Some(slot)
        }
    }

    /// How many slots currently hold a frame.
    pub fn len(&self) -> (n: usize)
        requires
            self.wf(),
        ensures
            n == count_held(self@.slots),
            n <= self@.slots.len(),
            all_numbered(self@.history) ==> n == min_nat(self@.total_written as nat, self@.slots.len()),
    {
        let ghost views = self@.slots;
        let mut count: usize = 0;
        let mut i: usize = 0;
        while i < self.slots.len()
            invariant
                i <= self.slots@.len(),
                views == self@.slots,
                views.len() == self.slots@.len(),
                count == count_held(views.subrange(0, i as int)),
                count <= i,
            decreases self.slots@.len() - i,
        {
            assert(views.subrange(0, i + 1).drop_last() =~= views.subrange(0, i as int));
            if !self.slots[i].is_empty() {
                count = count + 1;
            }
            i = i + 1;
        }
        assert(views.subrange(0, views.len() as int) =~= views);
        proof {
            if all_numbered(self@.history) {
                self.lemma_held_count();
            }
        }
        count
    }

    pub fn is_empty(&self) -> (b: bool)
        requires
            self.wf(),
        ensures
            b == (count_held(self@.slots) == 0),
    {
        self.len() == 0
    }

    /// How many frames have been overwritten before anyone read them: with
    /// every written frame numbered, all those written beyond the capacity.
    pub fn overflow_count(&self) -> (n: u64)
        requires
            self.wf(),
        ensures
            n == self@.overflow_count,
            all_numbered(self@.history) ==> n == self@.total_written - min_nat(
                self@.total_written as nat,
                self@.slots.len(),
            ),
    {
        self.overflow_count
    }

    pub fn total_written(&self) -> (n: u64)
        ensures
            n == self@.total_written,
    {
        self.total_written
    }

    pub fn capacity(&self) -> (n: usize)
        ensures
            n == self@.slots.len(),
    {
        self.slots.len()
    }

    /// After a run of writes into a new ring, `frames` in the order written,
    /// each numbered from 1: the ring holds the last `min(n, capacity)` of
    /// them, reads them by age oldest first and nothing beyond, reads the last
    /// one as the latest, and counts each frame written beyond the capacity as
    /// an overflow.
    pub proof fn lemma_reads_after_writes(&self, frames: Seq<FrameView>)
        requires
            self.wf(),
            self@.history == frames.map_values(|f: FrameView| slot_of(f)),
            forall|i: int| 0 <= i < frames.len() ==> (#[trigger] frames[i]).sequence != 0,
        ensures
            ({
                let n = frames.len();
                let k = min_nat(n, self@.slots.len());
                &&& self@.total_written == n
                &&& count_held(self@.slots) == k
                &&& self@.overflow_count == n - k
                &&& forall|i: int|
                    0 <= i < k ==> #[trigger] spec_read_by_age(self@, i) == Some(
                        slot_of(frames[n - k + i]),
                    )
                &&& forall|i: int| i >= k ==> #[trigger] spec_read_by_age(self@, i) is None
                &&& n > 0 ==> spec_read_latest(self@) == Some(slot_of(frames[n - 1]))
            }),
    {
        let h = self@.history;
        let n = frames.len() as int;
        let cap = self@.slots.len() as int;
        assert(all_numbered(h)) by {
            assert forall|k: int| 0 <= k < h.len() implies (#[trigger] h[k]).sequence != 0 by {
                assert(h[k] == slot_of(frames[k]));
            }
        }
        self.lemma_held_count();
        let held = min_nat(n as nat, cap as nat) as int;
        assert forall|i: int| 0 <= i < held implies #[trigger] spec_read_by_age(self@, i) == Some(
            slot_of(frames[n - held + i]),
        ) by {
            lemma_age_position(n, cap, held, i);
            let p = n - held + i;
            assert(self.slots@[p % cap]@ == h[p]);
            assert(h[p] == slot_of(frames[p]));
        }
        if n > 0 {
            lemma_previous_index(n, cap);
            assert(self.slots@[(n - 1) % cap]@ == h[n - 1]);
            assert(h[n - 1] == slot_of(frames[n - 1]));
        }
    }

    /// With every written frame numbered, the held slots are exactly the
    /// first `min(written, capacity)` positions' worth.
    proof fn lemma_held_count(&self)
        requires
            self.wf(),
            all_numbered(self@.history),
        ensures
            count_held(self@.slots) == min_nat(self@.total_written as nat, self@.slots.len()),
    {
        let views = self@.slots;
        let cap = views.len() as int;
        let n = self.total_written as int;
        assert forall|j: int| 0 <= j < cap implies (#[trigger] views[j]).sequence != 0 <==> j < n by {
            if j < n {
                if n <= cap {
                    lemma_small_mod(j as nat, cap as nat);
                    assert(self.slots@[j % cap]@ == self.history@[j]);
                } else {
                    let k = j + cap * ((n - 1 - j) / cap);
                    lemma_latest_position(n, cap, j);
                    assert(self.slots@[k % cap]@ == self.history@[k]);
                }
            }
        }
        lemma_count_prefix(views, n, cap);
        assert(views.subrange(0, cap) =~= views);
    }
}

proof fn lemma_count_prefix(views: Seq<SlotView>, n: int, m: int)
    requires
        0 <= m <= views.len(),
        0 <= n,
        forall|j: int| 0 <= j < views.len() ==> ((#[trigger] views[j]).sequence != 0 <==> j < n),
    ensures
        count_held(views.subrange(0, m)) == if m <= n {
            m
        } else {
            n
        },
    decreases m,
{
    if m > 0 {
        lemma_count_prefix(views, n, m - 1);
        assert(views.subrange(0, m).drop_last() =~= views.subrange(0, m - 1));
    }
}

/// Two positions less than `cap` apart never share a slot.
proof fn lemma_distinct_residues(a: int, b: int, cap: int)
    requires
        0 <= a < b,
        b - a < cap,
    ensures
        a % cap != b % cap,
{
    lemma_mod_equivalence(b, a, cap);
    lemma_small_mod((b - a) as nat, cap as nat);
}

/// The slot behind the write cursor holds position `n - 1`.
proof fn lemma_previous_index(n: int, cap: int)
    requires
        n >= 1,
        cap >= 2,
    ensures
        (if n % cap == 0 {
            cap - 1
        } else {
            n % cap - 1
        }) == (n - 1) % cap,
{
    lemma_add_mod_noop_right(-1, n, cap);
    if n % cap == 0 {
        lemma_mod_add_multiples_vanish(-1, cap);
        lemma_small_mod((cap - 1) as nat, cap as nat);
    } else {
        lemma_small_mod((n % cap - 1) as nat, cap as nat);
    }
}

/// The slot `index` places after the oldest held one holds position
/// `n - held + index`.
proof fn lemma_age_position(n: int, cap: int, held: int, index: int)
    requires
        cap >= 2,
        0 <= held <= n,
        held <= cap,
        0 <= index < held,
    ensures
        ((n % cap + cap - held) % cap + index) % cap == (n - held + index) % cap,
{
    lemma_add_mod_noop_right(index, n % cap + cap - held, cap);
    lemma_add_mod_noop_right(cap - held + index, n, cap);
    lemma_mod_add_multiples_vanish(n - held + index, cap);
    assert(index + (n % cap + cap - held) == n % cap + (cap - held + index));
    assert(cap - held + index + n == cap + (n - held + index));
}

/// Once `cap` or more frames are written, slot `j` holds a position within
/// the last `cap`.
proof fn lemma_latest_position(n: int, cap: int, j: int)
    requires
        cap >= 2,
        cap <= n,
        0 <= j < cap,
    ensures
        ({
            let k = j + cap * ((n - 1 - j) / cap);
            &&& 0 <= k < n
            &&& n - cap <= k
            &&& k % cap == j
        }),
{
    let q = (n - 1 - j) / cap;
    let r = (n - 1 - j) % cap;
    assert(n - 1 - j == cap * q + r && 0 <= r < cap) by {
        vstd::arithmetic::div_mod::lemma_fundamental_div_mod(n - 1 - j, cap);
    }
    assert(q >= 0) by (nonlinear_arith)
        requires
            n - 1 - j == cap * q + r,
            0 <= r < cap,
            n - 1 - j >= 0,
            cap > 0,
    ;
    vstd::arithmetic::div_mod::lemma_mod_multiples_vanish(q, j, cap);
    lemma_small_mod(j as nat, cap as nat);
}

} // verus!
