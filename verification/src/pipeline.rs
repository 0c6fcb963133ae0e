//! Pipeline diagnostics counters and their Prometheus text exposition.
//!
//! The counters are a value of their own here; the process-wide instance
//! that the `/metrics` endpoint and the ForceRebase diagnostics command share
//! belongs to the running application.

use vstd::prelude::*;
use crate::text::{decimal, push_decimal, push_str, string_of};

verus! {

/// Milliseconds since the Unix epoch by the system clock (0 if the clock is
/// before the epoch). Nothing is stated of the value: it is the time.
#[verifier::external_body]
fn now_unix_ms() -> u64 {
    std::time::SystemTime::now()
        .duration_since(std::time::UNIX_EPOCH)
        .unwrap_or_default()
        .as_millis() as u64
}

/// The rebase counter and the process start stamp (0 until first stamped).
pub struct PipelineCounters {
    rebase: u64,
    start_unix_ms: u64,
}

pub struct CountersView {
    pub rebase: u64,
    pub start_unix_ms: u64,
}

impl View for PipelineCounters {
    type V = CountersView;

    closed spec fn view(&self) -> CountersView {
        CountersView { rebase: self.rebase, start_unix_ms: self.start_unix_ms }
    }
}

/// The text exposition of the counters.
pub open spec fn spec_exposition(rebase: u64, uptime_ms: u64) -> Seq<char> {
    "# HELP iris_rebase_total Number of pipeline rebase events.\n# TYPE iris_rebase_total counter\niris_rebase_total "@
        + decimal(rebase as nat)
        + "\n# HELP iris_uptime_milliseconds Process uptime in milliseconds.\n# TYPE iris_uptime_milliseconds gauge\niris_uptime_milliseconds "@
        + decimal(uptime_ms as nat) + "\n"@
}

/// Prometheus text format for a rebase count and an uptime.
pub fn exposition(rebase: u64, uptime_ms: u64) -> (s: String)
    ensures
        s@ == spec_exposition(rebase, uptime_ms),
{
    let mut s = string_of(
        "# HELP iris_rebase_total Number of pipeline rebase events.\n# TYPE iris_rebase_total counter\niris_rebase_total ",
    );
    push_decimal(&mut s, rebase);
    push_str(
        &mut s,
        "\n# HELP iris_uptime_milliseconds Process uptime in milliseconds.\n# TYPE iris_uptime_milliseconds gauge\niris_uptime_milliseconds ",
    );
    push_decimal(&mut s, uptime_ms);
    push_str(&mut s, "\n");
    s
}

/// Uptime is now minus start, never below zero.
pub open spec fn uptime(now: u64, start: u64) -> u64 {
    if now >= start {
        (now - start) as u64
    } else {
        0
    }
}

impl PipelineCounters {
    pub fn new() -> (c: PipelineCounters)
        ensures
            c@.rebase == 0,
            c@.start_unix_ms == 0,
    {
        PipelineCounters { rebase: 0, start_unix_ms: 0 }
    }

    /// Count one rebase (diagnostics command, tests). Wraps as an atomic
    /// counter does.
    pub fn force_increment_rebase_for_test(&mut self)
        ensures
            final(self)@.rebase == if old(self)@.rebase == u64::MAX {
                0
            } else {
                (old(self)@.rebase + 1) as u64
            },
            final(self)@.start_unix_ms == old(self)@.start_unix_ms,
    {
        self.rebase = if self.rebase == u64::MAX {
            0
        } else {
            self.rebase + 1
        };
    }

    pub fn rebase_count(&self) -> (n: u64)
        ensures
            n == self@.rebase,
    {
        self.rebase
    }

    /// The process start: the first caller stamps `now`, later callers read
    /// the stamp.
    pub fn start_at(&mut self, now: u64) -> (start: u64)
        ensures
            old(self)@.start_unix_ms != 0 ==> start == old(self)@.start_unix_ms && final(self)@
                == old(self)@,
            old(self)@.start_unix_ms == 0 ==> start == now && final(self)@.start_unix_ms == now,
            final(self)@.rebase == old(self)@.rebase,
    {
        if self.start_unix_ms != 0 {
            return self.start_unix_ms;
        }
        self.start_unix_ms = now;
        now
    }

    /// `start_at` with the current time.
    pub fn start_ms(&mut self) -> (start: u64)
        ensures
            old(self)@.start_unix_ms != 0 ==> start == old(self)@.start_unix_ms && final(self)@
                == old(self)@,
            old(self)@.start_unix_ms == 0 ==> final(self)@.start_unix_ms == start,
            final(self)@.rebase == old(self)@.rebase,
    {
        if self.start_unix_ms != 0 {
            return self.start_unix_ms;
        }
        let now = now_unix_ms();
        self.start_at(now)
    }

    /// The exposition at clock reading `now`.
    pub fn prometheus_text_at(&mut self, now: u64) -> (s: String)
        ensures
            s@ == spec_exposition(
                old(self)@.rebase,
                uptime(
                    now,
                    if old(self)@.start_unix_ms != 0 {
                        old(self)@.start_unix_ms
                    } else {
                        now
                    },
                ),
            ),
            final(self)@.rebase == old(self)@.rebase,
            final(self)@.start_unix_ms == if old(self)@.start_unix_ms != 0 {
                old(self)@.start_unix_ms
            } else {
                now
            },
    {
        let start = self.start_at(now);
        let up: u64 = if now >= start {
            now - start
        } else {
            0
        };
        exposition(self.rebase, up)
    }

    /// The exposition now: the rebase count and the uptime since the start
    /// stamp (stamped now if unset).
    pub fn prometheus_text(&mut self) -> (s: String)
        ensures
            exists|now: u64| s@ == spec_exposition(old(self)@.rebase, uptime(now, final(self)@.start_unix_ms)),
            final(self)@.rebase == old(self)@.rebase,
            old(self)@.start_unix_ms != 0 ==> final(self)@.start_unix_ms == old(self)@.start_unix_ms,
    {
        let now = now_unix_ms();
        self.prometheus_text_at(now)
    }
}

} // verus!
