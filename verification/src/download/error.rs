use vstd::prelude::*;

verus! {

/// Why a download (or one of its chunks) stopped.
#[derive(Debug, Clone, Copy, PartialEq, Eq, Structural)]
pub enum DownloadEndCause {
    Finished,
    Cancelled,
    Paused,
}

/// What the chunks of a running download are told: stop for a reason, or stop
/// because another chunk failed.
#[derive(Debug, Clone, Copy, PartialEq, Eq, Structural)]
pub enum DownloadActionNotify {
    Notify(DownloadEndCause),
    Error,
}

/// Why a download could not be started.
#[derive(Debug, Clone, Copy, PartialEq, Eq, Structural)]
pub enum DownloadStartError {
    AlreadyDownloading,
    DirectoryDoesNotExist,
}

} // verus!
