//! The application-wide capture state shown to the user.

use vstd::prelude::*;

verus! {

#[derive(Debug, Clone, PartialEq, Eq)]
pub enum CaptureState {
    Disconnected,
    Initializing,
    Capturing,
    Paused,
    Error(String),
    ShuttingDown,
}

} // verus!
