//! The state of all tasks, as kept on disk to resume downloads.

use vstd::prelude::*;
use crate::download::download_task::DownloadTaskState;

verus! {

/// The tasks to keep across runs.
pub struct PersistenceState {
    pub tasks: Vec<DownloadTaskState>,
}

} // verus!
