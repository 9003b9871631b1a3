use vstd::prelude::*;

verus! {

/// Tracks the download speed.
pub struct DownloadSpeedTrackerExtension {}

impl DownloadSpeedTrackerExtension {
    pub fn new() -> Self {
        Self {}
    }
}

} // verus!
