use vstd::prelude::*;

verus! {

/// Why a download stopped.
#[derive(Debug, Clone, Copy, PartialEq, Eq, Structural)]
pub enum DownloadEndCause {
    Finished,
    Canceled,
    Paused,
}

} // verus!
