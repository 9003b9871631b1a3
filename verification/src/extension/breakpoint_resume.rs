//! Resuming a download from where it stopped: keep the state of a task when it
//! pauses or the process stops, and rebuild the task from that state.

use vstd::prelude::*;

verus! {

/// The breakpoint-resume extension.
pub struct BreakpointResume {}

} // verus!
