//! Frame fan-out: one capture source, several consumers.
//!
//! Two modes are built: `Pull` (a ring of recent frames read at each
//! consumer's own pace) and `Push` (per-subscriber channels, where a slow
//! subscriber drops only its own frames). `SharedMemory` and `Ipc` are named
//! and refused, because a mode that silently behaves like another is worse
//! than one that says it is not built.
//!
//! `StreamCore` holds the service's state and makes its decisions; the
//! running service owns the channels, performs the sends it is told about
//! and hands back what each send did.

use vstd::prelude::*;
use std::str::FromStr;
use crate::error::{IrisError, IrisErrorView};
use crate::text::{
    ascii_lower_seq, debug_quoted, decimal, push_decimal, push_str, str_debug, str_eq,
    str_lowercase, string_from_chars, string_of, to_lowercase, trim_chars, trim_seq,
};

verus! {

// ---- modes ----------------------------------------------------------------

/// Frame delivery mode.
#[derive(Debug, Clone, Copy, PartialEq, Eq, Structural)]
pub enum StreamMode {
    /// Frames land in a ring buffer; consumers read at their own pace.
    Pull,
    /// Frames are pushed to each subscriber's channel.
    Push,
    /// Not built: a cross-process shared-memory ring.
    SharedMemory,
    /// Not built: serialised frames over the IPC transport.
    Ipc,
}

pub open spec fn spec_mode_name(m: StreamMode) -> Seq<char> {
    match m {
        StreamMode::Pull => "pull"@,
        StreamMode::Push => "push"@,
        StreamMode::SharedMemory => "shared_memory"@,
        StreamMode::Ipc => "ipc"@,
    }
}

/// The mode a configuration string names, after trimming and lowercasing.
/// Every named mode parses, the unbuilt ones included: a configuration naming
/// one should fail at the service ("not implemented"), not here ("no such
/// mode"), since only the second is a typo.
pub open spec fn spec_parse_mode(s: Seq<char>) -> Result<StreamMode, Seq<char>> {
    spec_mode_of_lowered(str_lowercase(trim_seq(s)))
}

/// Every character is ASCII.
pub open spec fn is_ascii_text(s: Seq<char>) -> bool {
    forall|i: int| 0 <= i < s.len() ==> (#[trigger] s[i] as u32) < 0x80
}

/// The mode a trimmed, lowercased name gives, or the refusal naming it.
pub open spec fn spec_mode_of_lowered(n: Seq<char>) -> Result<StreamMode, Seq<char>> {
    if n == "pull"@ {
        Ok(StreamMode::Pull)
    } else if n == "push"@ {
        Ok(StreamMode::Push)
    } else if n == "shared_memory"@ || n == "sharedmemory"@ || n == "shm"@ {
        Ok(StreamMode::SharedMemory)
    } else if n == "ipc"@ {
        Ok(StreamMode::Ipc)
    } else {
        Err(
            "unknown stream mode "@ + str_debug(n)
                + " (expected pull, push, shared_memory or ipc)"@,
        )
    }
}

impl StreamMode {
    /// Whether the service can actually run in this mode.
    pub fn is_implemented(&self) -> (b: bool)
        ensures
            b == (*self is Pull || *self is Push),
    {
        match self {
            StreamMode::Pull | StreamMode::Push => true,
            _ => false,
        }
    }

    pub fn as_str(&self) -> (s: &'static str)
        ensures
            s@ == spec_mode_name(*self),
    {
        match self {
            StreamMode::Pull => "pull",
            StreamMode::Push => "push",
            StreamMode::SharedMemory => "shared_memory",
            StreamMode::Ipc => "ipc",
        }
    }

    /// Parse a mode name; see `spec_parse_mode`.
    pub fn parse(s: &str) -> (r: Result<StreamMode, String>)
        ensures
            match r {
                Ok(m) => spec_parse_mode(s@) == Ok::<StreamMode, Seq<char>>(m),
                Err(e) => spec_parse_mode(s@) == Err::<StreamMode, Seq<char>>(e@),
            },
            is_ascii_text(trim_seq(s@)) ==> match r {
                Ok(m) => spec_mode_of_lowered(ascii_lower_seq(trim_seq(s@))) == Ok::<
                    StreamMode,
                    Seq<char>,
                >(m),
                Err(e) => spec_mode_of_lowered(ascii_lower_seq(trim_seq(s@))) == Err::<
                    StreamMode,
                    Seq<char>,
                >(e@),
            },
    {
        let t = trim_chars(s);
        let ts = string_from_chars(&t);
        let n = to_lowercase(ts.as_str());
        let ns = n.as_str();
        if str_eq(ns, "pull") {
            Ok(StreamMode::Pull)
        } else if str_eq(ns, "push") {
            Ok(StreamMode::Push)
        } else if str_eq(ns, "shared_memory") || str_eq(ns, "sharedmemory") || str_eq(ns, "shm") {
            Ok(StreamMode::SharedMemory)
        } else if str_eq(ns, "ipc") {
            Ok(StreamMode::Ipc)
        } else {
            let mut m = string_of("unknown stream mode ");
            let q = debug_quoted(ns);
            push_str(&mut m, q.as_str());
            push_str(&mut m, " (expected pull, push, shared_memory or ipc)");
            Err(m)
        }
    }
}

impl FromStr for StreamMode {
    type Err = String;

    fn from_str(s: &str) -> (r: Result<StreamMode, String>)
        ensures
            match r {
                Ok(m) => spec_parse_mode(s@) == Ok::<StreamMode, Seq<char>>(m),
                Err(e) => spec_parse_mode(s@) == Err::<StreamMode, Seq<char>>(e@),
            },
            is_ascii_text(trim_seq(s@)) ==> match r {
                Ok(m) => spec_mode_of_lowered(ascii_lower_seq(trim_seq(s@))) == Ok::<
                    StreamMode,
                    Seq<char>,
                >(m),
                Err(e) => spec_mode_of_lowered(ascii_lower_seq(trim_seq(s@))) == Err::<
                    StreamMode,
                    Seq<char>,
                >(e@),
            },
    {
        StreamMode::parse(s)
    }
}

// ---- subscribers ----------------------------------------------------------

#[derive(Debug, Clone, Copy, PartialEq, Eq, Hash, PartialOrd, Ord)]
pub struct SubscriberId(pub u64);

impl SubscriberId {
    /// The text `Display` gives: `subscriber <n>`.
    pub fn display(&self) -> (s: String)
        ensures
            s@ == "subscriber "@ + decimal(self.0 as nat),
    {
        let mut s = string_of("subscriber ");
        push_decimal(&mut s, self.0);
        s
    }
}

/// Per-subscriber counters, reported by `GetStats`.
#[derive(Debug, Clone, Copy, PartialEq, Eq)]
pub struct SubscriberStats {
    pub id: SubscriberId,
    pub delivered: u64,
    /// Frames this subscriber missed because its channel was full: counted per
    /// subscriber, so a slow consumer is visible as such.
    pub dropped: u64,
}

/// The service's record of a subscriber and the sending end of its channel.
pub struct SubscriberRecord<T> {
    pub id: SubscriberId,
    pub frame_tx: T,
    pub delivered: u64,
    pub dropped: u64,
}

impl<T> SubscriberRecord<T> {
    pub fn stats(&self) -> (s: SubscriberStats)
        ensures
            s == (SubscriberStats { id: self.id, delivered: self.delivered, dropped: self.dropped }),
    {
        SubscriberStats { id: self.id, delivered: self.delivered, dropped: self.dropped }
    }
}

/// What one attempt to hand a frame to a subscriber's channel did.
#[derive(Debug, Clone, Copy, PartialEq, Eq, Structural)]
pub enum SendOutcome {
    Sent,
    /// The channel was full: the subscriber is behind.
    Full,
    /// The receiving end was dropped: the subscriber has gone.
    Closed,
}

/// What the service reports as it runs.
#[derive(Debug, Clone, PartialEq, Eq)]
pub enum StreamEvent {
    SubscriberAdded { id: u64, total: usize },
    SubscriberRemoved { id: u64, total: usize },
    StreamDelivery { subscriber_id: u64, frame_sequence: u64, latency_us: u64 },
    RingBufferOverflow { dropped_frames: u64 },
}

/// The stream service's state: its mode, its subscribers (in the order they
/// subscribed, ids ascending) and its counters.
pub struct StreamCore<T> {
    pub mode: StreamMode,
    pub subscribers: Vec<SubscriberRecord<T>>,
    pub next_sub_id: u64,
    pub sequence: u64,
    pub frames_received: u64,
    pub total_delivered: u64,
    pub total_dropped: u64,
    pub max_subscribers: usize,
    /// Per-subscriber channel depth. Small on purpose: a deep queue does not
    /// help a persistently slow consumer, it only hides it from the drop count.
    pub subscriber_queue_depth: usize,
}

pub open spec fn ids_of<T>(s: Seq<SubscriberRecord<T>>) -> Seq<u64> {
    s.map_values(|r: SubscriberRecord<T>| r.id.0)
}

pub open spec fn at_limit_message(max: usize) -> Seq<char> {
    "at the subscriber limit ("@ + decimal(max as nat) + "); unsubscribe one first"@
}

pub open spec fn not_built_message(m: StreamMode) -> Seq<char> {
    "stream mode "@ + spec_mode_name(m)
        + " is not implemented \u{2014} refusing rather than silently running as another mode"@
}

/// Latency from a frame's capture stamp to now, never below zero.
pub open spec fn spec_latency(now: u64, stamp: u64) -> u64 {
    if now >= stamp {
        (now - stamp) as u64
    } else {
        0
    }
}

pub fn latency_us(now: u64, stamp: u64) -> (l: u64)
    ensures
        l == spec_latency(now, stamp),
{
    if now >= stamp {
        now - stamp
    } else {
        0
    }
}

impl<T> StreamCore<T> {
    /// Subscriber ids strictly ascending in subscription order, all below the
    /// next id to hand out: no id is ever issued twice.
    pub open spec fn wf(&self) -> bool {
        &&& forall|i: int, j: int|
            0 <= i < j < self.subscribers@.len() ==> (#[trigger] self.subscribers@[i]).id.0
                < (#[trigger] self.subscribers@[j]).id.0
        &&& forall|i: int|
            0 <= i < self.subscribers@.len() ==> (#[trigger] self.subscribers@[i]).id.0
                < self.next_sub_id
        &&& self.next_sub_id >= 1
    }

    pub fn new(mode: StreamMode, max_subscribers: usize) -> (c: StreamCore<T>)
        ensures
            c.wf(),
            c.mode == mode,
            c.subscribers@.len() == 0,
            c.next_sub_id == 1,
            c.sequence == 0,
            c.frames_received == 0,
            c.total_delivered == 0,
            c.total_dropped == 0,
            c.max_subscribers == max_subscribers,
            c.subscriber_queue_depth == 4,
    {
        StreamCore {
            mode,
            subscribers: Vec::new(),
            next_sub_id: 1,
            sequence: 0,
            frames_received: 0,
            total_delivered: 0,
            total_dropped: 0,
            max_subscribers,
            subscriber_queue_depth: 4,
        }
    }

    /// The sequence number for the next reported event.
    pub fn next_sequence(&mut self) -> (s: u64)
        requires
            old(self).sequence < u64::MAX,
        ensures
            s == old(self).sequence,
            final(self).sequence == old(self).sequence + 1,
            final(self).subscribers == old(self).subscribers,
            final(self).next_sub_id == old(self).next_sub_id,
            final(self).mode == old(self).mode,
            final(self).frames_received == old(self).frames_received,
            final(self).total_delivered == old(self).total_delivered,
            final(self).total_dropped == old(self).total_dropped,
            final(self).max_subscribers == old(self).max_subscribers,
    {
        let s = self.sequence;
        self.sequence = self.sequence + 1;
        s
    }

    /// Whether another subscriber may join: below the limit. A refusal says
    /// what the limit is.
    pub fn check_subscribe(&self) -> (r: Result<SubscriberId, IrisError>)
        ensures
            r is Ok <==> self.subscribers@.len() < self.max_subscribers,
            r matches Ok(id) ==> id.0 == self.next_sub_id,
            r matches Err(e) ==> e@ == IrisErrorView::Stream(at_limit_message(self.max_subscribers)),
    {
        if self.subscribers.len() >= self.max_subscribers {
            let mut m = string_of("at the subscriber limit (");
            push_decimal(&mut m, self.max_subscribers as u64);
            push_str(&mut m, "); unsubscribe one first");
            return Err(IrisError::Stream(m));
        }
        Ok(SubscriberId(self.next_sub_id))
    }

    /// Add a subscriber with sending end `frame_tx`, under the next id, when
    /// below the limit.
    pub fn subscribe(&mut self, frame_tx: T) -> (r: Result<(SubscriberId, StreamEvent), IrisError>)
        requires
            old(self).wf(),
            old(self).next_sub_id < u64::MAX,
        ensures
            final(self).wf(),
            r is Ok <==> old(self).subscribers@.len() < old(self).max_subscribers,
            match r {
                Ok((id, ev)) => {
                    &&& id.0 == old(self).next_sub_id
                    &&& final(self).next_sub_id == old(self).next_sub_id + 1
                    &&& final(self).subscribers@.len() == old(self).subscribers@.len() + 1
                    &&& ids_of(final(self).subscribers@) == ids_of(old(self).subscribers@).push(id.0)
                    &&& final(self).subscribers@.last().delivered == 0
                    &&& final(self).subscribers@.last().dropped == 0
                    &&& forall|i: int| 0 <= i < old(self).subscribers@.len() ==> #[trigger] final(self).subscribers@[i] == old(self).subscribers@[i]
                    &&& ev == (StreamEvent::SubscriberAdded { id: id.0, total: final(self).subscribers@.len() as usize })
                },
                Err(e) => {
                    &&& e@ == IrisErrorView::Stream(at_limit_message(old(self).max_subscribers))
                    &&& final(self).subscribers == old(self).subscribers
                    &&& final(self).next_sub_id == old(self).next_sub_id
                },
            },
            final(self).mode == old(self).mode,
            final(self).sequence == old(self).sequence,
            final(self).frames_received == old(self).frames_received,
            final(self).total_delivered == old(self).total_delivered,
            final(self).total_dropped == old(self).total_dropped,
            final(self).max_subscribers == old(self).max_subscribers,
    {
        match self.check_subscribe() {
            Err(e) => Err(e),
            Ok(id) => {
                self.next_sub_id = self.next_sub_id + 1;
                self.subscribers.push(SubscriberRecord { id, frame_tx, delivered: 0, dropped: 0 });
                let total = self.subscribers.len();
                proof {
                    assert(ids_of(self.subscribers@) =~= ids_of(old(self).subscribers@).push(id.0));
                }
                Ok((id, StreamEvent::SubscriberAdded { id: id.0, total }))
            },
        }
    }

    /// Remove the subscriber `id`, if present, reporting it with the new total.
    pub fn remove_subscriber(&mut self, id: SubscriberId) -> (ev: Option<StreamEvent>)
        requires
            old(self).wf(),
        ensures
            final(self).wf(),
            match ev {
                Some(e) => {
                    &&& exists|i: int|
                        0 <= i < old(self).subscribers@.len() && #[trigger] old(self).subscribers@[i].id == id
                            && final(self).subscribers@ == old(self).subscribers@.remove(i)
                    &&& e == (StreamEvent::SubscriberRemoved { id: id.0, total: final(self).subscribers@.len() as usize })
                },
                None => {
                    &&& final(self).subscribers@ == old(self).subscribers@
                    &&& forall|i: int| 0 <= i < old(self).subscribers@.len() ==> #[trigger] old(self).subscribers@[i].id != id
                },
            },
            forall|i: int| 0 <= i < final(self).subscribers@.len() ==> #[trigger] final(self).subscribers@[i].id != id,
            final(self).next_sub_id == old(self).next_sub_id,
            final(self).mode == old(self).mode,
            final(self).sequence == old(self).sequence,
            final(self).frames_received == old(self).frames_received,
            final(self).total_delivered == old(self).total_delivered,
            final(self).total_dropped == old(self).total_dropped,
            final(self).max_subscribers == old(self).max_subscribers,
    {
        let mut i: usize = 0;
        let mut found = false;
        while i < self.subscribers.len()
            invariant_except_break
                !found,
            invariant
                i <= self.subscribers@.len(),
                self.subscribers@ == old(self).subscribers@,
                forall|j: int| 0 <= j < i ==> (#[trigger] self.subscribers@[j]).id != id,
            ensures
                i <= self.subscribers@.len(),
                self.subscribers@ == old(self).subscribers@,
                forall|j: int| 0 <= j < i ==> (#[trigger] self.subscribers@[j]).id != id,
                found ==> i < self.subscribers@.len() && self.subscribers@[i as int].id == id,
                !found ==> i == self.subscribers@.len(),
            decreases self.subscribers@.len() - i,
        {
            if self.subscribers[i].id.0 == id.0 {
                assert(self.subscribers@[i as int].id == id);
                found = true;
                break;
            }
            i = i + 1;
        }
        if !found {
            return None;
        }
        let ghost before = self.subscribers@;
        let _removed = self.subscribers.remove(i);
        proof {
            let after = self.subscribers@;
            assert(after == before.remove(i as int));
            assert forall|k: int| 0 <= k < after.len() implies #[trigger] after[k].id != id by {
                if k >= i {
                    assert(after[k] == before[k + 1]);
                    assert(before[i as int].id.0 < before[k + 1].id.0);
                }
            }
            assert forall|a: int, b: int| 0 <= a < b < after.len() implies (#[trigger] after[a]).id.0 < (#[trigger] after[b]).id.0 by {
                let a0 = if a < i { a } else { a + 1 };
                let b0 = if b < i { b } else { b + 1 };
                assert(after[a] == before[a0] && after[b] == before[b0]);
            }
            assert forall|a: int| 0 <= a < after.len() implies (#[trigger] after[a]).id.0 < self.next_sub_id by {
                let a0 = if a < i { a } else { a + 1 };
                assert(after[a] == before[a0]);
            }
        }
        let total = self.subscribers.len();
        Some(StreamEvent::SubscriberRemoved { id: id.0, total })
    }

    /// Switch mode. An unbuilt mode is refused, never run as another.
    pub fn set_mode(&mut self, mode: StreamMode) -> (r: Result<(), IrisError>)
        ensures
            r is Ok <==> (mode is Pull || mode is Push),
            r is Ok ==> final(self).mode == mode,
            r matches Err(e) ==> e@ == IrisErrorView::Stream(not_built_message(mode)) && final(self).mode == old(self).mode,
            final(self).subscribers == old(self).subscribers,
            final(self).next_sub_id == old(self).next_sub_id,
            final(self).sequence == old(self).sequence,
            final(self).frames_received == old(self).frames_received,
            final(self).total_delivered == old(self).total_delivered,
            final(self).total_dropped == old(self).total_dropped,
            final(self).max_subscribers == old(self).max_subscribers,
    {
        if !mode.is_implemented() {
            let mut m = string_of("stream mode ");
            push_str(&mut m, mode.as_str());
            push_str(&mut m, " is not implemented \u{2014} refusing rather than silently running as another mode");
            return Err(IrisError::Stream(m));
        }
        self.mode = mode;
        Ok(())
    }

    /// Count a frame received from the capture side.
    pub fn frame_received(&mut self)
        requires
            old(self).frames_received < u64::MAX,
        ensures
            final(self).frames_received == old(self).frames_received + 1,
            final(self).subscribers == old(self).subscribers,
            final(self).next_sub_id == old(self).next_sub_id,
            final(self).mode == old(self).mode,
            final(self).sequence == old(self).sequence,
            final(self).total_delivered == old(self).total_delivered,
            final(self).total_dropped == old(self).total_dropped,
            final(self).max_subscribers == old(self).max_subscribers,
    {
        self.frames_received = self.frames_received + 1;
    }

    /// Account one push of a frame to every subscriber, `outcomes[i]` being
    /// what the send to subscriber `i` did. A delivered frame counts for that
    /// subscriber only, a full channel drops that subscriber's frame only, and
    /// the ids whose receivers are gone are returned for removal.
    pub fn record_push(&mut self, outcomes: &Vec<SendOutcome>) -> (gone: Vec<SubscriberId>)
        requires
            outcomes@.len() == old(self).subscribers@.len(),
            old(self).total_delivered + outcomes@.len() <= u64::MAX,
            old(self).total_dropped + outcomes@.len() <= u64::MAX,
            forall|i: int| 0 <= i < old(self).subscribers@.len() ==> (#[trigger] old(self).subscribers@[i]).delivered < u64::MAX && old(self).subscribers@[i].dropped < u64::MAX,
        ensures
            final(self).subscribers@.len() == old(self).subscribers@.len(),
            forall|i: int| 0 <= i < old(self).subscribers@.len() ==> {
                let o = old(self).subscribers@[i];
                let n = #[trigger] final(self).subscribers@[i];
                &&& n.id == o.id
                &&& n.frame_tx == o.frame_tx
                &&& n.delivered == o.delivered + if outcomes@[i] is Sent { 1int } else { 0int }
                &&& n.dropped == o.dropped + if outcomes@[i] is Full { 1int } else { 0int }
            },
            final(self).total_delivered == old(self).total_delivered + count_outcome(outcomes@, outcomes@.len() as int, SendOutcome::Sent),
            final(self).total_dropped == old(self).total_dropped + count_outcome(outcomes@, outcomes@.len() as int, SendOutcome::Full),
            gone@ == closed_ids(old(self).subscribers@, outcomes@, old(self).subscribers@.len() as int),
            final(self).next_sub_id == old(self).next_sub_id,
            final(self).mode == old(self).mode,
            final(self).sequence == old(self).sequence,
            final(self).frames_received == old(self).frames_received,
            final(self).max_subscribers == old(self).max_subscribers,
            old(self).wf() ==> final(self).wf(),
    {
        let n = self.subscribers.len();
        let mut gone: Vec<SubscriberId> = Vec::new();
        let mut i: usize = 0;
        while i < n
            invariant
                n == old(self).subscribers@.len(),
                self.subscribers@.len() == n,
                outcomes@.len() == n,
                i <= n,
                old(self).total_delivered + outcomes@.len() <= u64::MAX,
                old(self).total_dropped + outcomes@.len() <= u64::MAX,
                forall|j: int| 0 <= j < n ==> (#[trigger] old(self).subscribers@[j]).delivered < u64::MAX && old(self).subscribers@[j].dropped < u64::MAX,
                forall|j: int| i <= j < n ==> #[trigger] self.subscribers@[j] == old(self).subscribers@[j],
                forall|j: int| 0 <= j < i ==> {
                    let o = old(self).subscribers@[j];
                    let m = #[trigger] self.subscribers@[j];
                    &&& m.id == o.id
                    &&& m.frame_tx == o.frame_tx
                    &&& m.delivered == o.delivered + if outcomes@[j] is Sent { 1int } else { 0int }
                    &&& m.dropped == o.dropped + if outcomes@[j] is Full { 1int } else { 0int }
                },
                self.total_delivered == old(self).total_delivered + count_outcome(outcomes@, i as int, SendOutcome::Sent),
                self.total_dropped == old(self).total_dropped + count_outcome(outcomes@, i as int, SendOutcome::Full),
                gone@ == closed_ids(old(self).subscribers@, outcomes@, i as int),
                self.next_sub_id == old(self).next_sub_id,
                self.mode == old(self).mode,
                self.sequence == old(self).sequence,
                self.frames_received == old(self).frames_received,
                self.max_subscribers == old(self).max_subscribers,
            decreases n - i,
        {
            proof {
                lemma_count_outcome_bound(outcomes@, i as int, SendOutcome::Sent);
                lemma_count_outcome_bound(outcomes@, i as int, SendOutcome::Full);
            }
            match outcomes[i] {
                SendOutcome::Sent => {
                    let mut r = self.subscribers.remove(i);
                    r.delivered = r.delivered + 1;
                    self.subscribers.insert(i, r);
                    self.total_delivered = self.total_delivered + 1;
                },
                SendOutcome::Full => {
                    let mut r = self.subscribers.remove(i);
                    r.dropped = r.dropped + 1;
                    self.subscribers.insert(i, r);
                    self.total_dropped = self.total_dropped + 1;
                },
                SendOutcome::Closed => {
                    gone.push(self.subscribers[i].id);
                },
            }
            proof {
                assert forall|j: int| i < j < n implies #[trigger] self.subscribers@[j] == old(self).subscribers@[j] by {}
            }
            i = i + 1;
        }
        proof {
            if old(self).wf() {
                assert(forall|j: int| 0 <= j < n ==> (#[trigger] self.subscribers@[j]).id == old(self).subscribers@[j].id);
            }
        }
        gone
    }

    /// The per-subscriber counters, in subscription order.
    pub fn subscriber_stats(&self) -> (v: Vec<SubscriberStats>)
        ensures
            v@.len() == self.subscribers@.len(),
            forall|i: int| 0 <= i < v@.len() ==> #[trigger] v@[i] == self.subscribers@[i].stats_view(),
    {
        let mut v: Vec<SubscriberStats> = Vec::new();
        let mut i: usize = 0;
        while i < self.subscribers.len()
            invariant
                i <= self.subscribers@.len(),
                v@.len() == i,
                forall|j: int| 0 <= j < i ==> #[trigger] v@[j] == self.subscribers@[j].stats_view(),
            decreases self.subscribers@.len() - i,
        {
            v.push(self.subscribers[i].stats());
            i = i + 1;
        }
        v
    }
}

impl<T> SubscriberRecord<T> {
    pub open spec fn stats_view(&self) -> SubscriberStats {
        SubscriberStats { id: self.id, delivered: self.delivered, dropped: self.dropped }
    }
}

/// The ids, in order, of the first `n` subscribers whose send found the
/// receiver gone.
pub open spec fn closed_ids<T>(subs: Seq<SubscriberRecord<T>>, outcomes: Seq<SendOutcome>, n: int) -> Seq<SubscriberId>
    decreases n,
{
    if n <= 0 {
        Seq::empty()
    } else if outcomes[n - 1] is Closed {
        closed_ids(subs, outcomes, n - 1).push(subs[n - 1].id)
    } else {
        closed_ids(subs, outcomes, n - 1)
    }
}

/// How many of the first `n` outcomes are `k`.
pub open spec fn count_outcome(outcomes: Seq<SendOutcome>, n: int, k: SendOutcome) -> nat
    decreases n,
{
    if n <= 0 {
        0
    } else {
        count_outcome(outcomes, n - 1, k) + if outcomes[n - 1] == k {
            1nat
        } else {
            0nat
        }
    }
}

proof fn lemma_count_outcome_bound(outcomes: Seq<SendOutcome>, n: int, k: SendOutcome)
    requires
        0 <= n,
    ensures
        count_outcome(outcomes, n, k) <= n,
    decreases n,
{
    if n > 0 {
        lemma_count_outcome_bound(outcomes, n - 1, k);
    }
}

} // verus!
