//! The health-monitoring service's command handling. Its measurements and
//! thresholds are floating-point and stay with the running service; what is
//! decided here is its status, whether it is monitoring, and its interval.

use vstd::prelude::*;

verus! {

/// Current status of the health service.
#[derive(Debug, Clone, Copy, PartialEq, Eq, Structural)]
pub enum HrtStatus {
    Idle,
    Monitoring,
    Stopped,
}

/// The commands of the health service that carry no measurement.
#[derive(Debug, Clone, Copy, PartialEq, Eq, Structural)]
pub enum HrtControl {
    Start,
    Stop,
    ForceCheck,
    SetInterval { interval_ms: u64 },
    Shutdown,
}

/// What the service does after a command.
#[derive(Debug, Clone, Copy, PartialEq, Eq, Structural)]
pub enum HrtAction {
    /// Nothing beyond the state change.
    Continue,
    /// Take one measurement now and report it.
    Check,
    /// Restart the tick timer at the new interval.
    ResetTimer,
    /// Stop the service.
    Exit,
}

pub struct HrtState {
    pub status: HrtStatus,
    pub running: bool,
    pub interval_ms: u64,
}

impl HrtState {
    pub fn new(interval_ms: u64) -> (s: HrtState)
        ensures
            s.status == HrtStatus::Idle,
            !s.running,
            s.interval_ms == interval_ms,
    {
        HrtState { status: HrtStatus::Idle, running: false, interval_ms }
    }

    /// Apply a command: `Start` and `Stop` switch monitoring (and the status),
    /// `ForceCheck` asks for a measurement whatever the state, `SetInterval`
    /// changes the tick, `Shutdown` stops the service.
    pub fn on_command(&mut self, cmd: HrtControl) -> (a: HrtAction)
        ensures
            match cmd {
                HrtControl::Start => a == HrtAction::Continue && final(self).status == HrtStatus::Monitoring && final(self).running && final(self).interval_ms == old(self).interval_ms,
                HrtControl::Stop => a == HrtAction::Continue && final(self).status == HrtStatus::Stopped && !final(self).running && final(self).interval_ms == old(self).interval_ms,
                HrtControl::ForceCheck => a == HrtAction::Check && final(self).status == old(self).status && final(self).running == old(self).running && final(self).interval_ms == old(self).interval_ms,
                HrtControl::SetInterval { interval_ms } => a == HrtAction::ResetTimer && final(self).interval_ms == interval_ms && final(self).status == old(self).status && final(self).running == old(self).running,
                HrtControl::Shutdown => a == HrtAction::Exit && final(self).status == HrtStatus::Stopped && final(self).running == old(self).running && final(self).interval_ms == old(self).interval_ms,
            },
    {
        match cmd {
            HrtControl::Start => {
                self.status = HrtStatus::Monitoring;
                self.running = true;
                HrtAction::Continue
            },
            HrtControl::Stop => {
                self.status = HrtStatus::Stopped;
                self.running = false;
                HrtAction::Continue
            },
            HrtControl::ForceCheck => HrtAction::Check,
            HrtControl::SetInterval { interval_ms } => {
                self.interval_ms = interval_ms;
                HrtAction::ResetTimer
            },
            HrtControl::Shutdown => {
                self.status = HrtStatus::Stopped;
                HrtAction::Exit
            },
        }
    }

    /// Whether a timer tick takes a measurement: only while monitoring.
    pub fn on_tick(&self) -> (check: bool)
        ensures
            check == self.running,
    {
        self.running
    }
}

} // verus!
