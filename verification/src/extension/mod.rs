pub mod breakpoint_resume;
pub mod speed_tracker;

use vstd::prelude::*;

verus! {

/// Hooks an extension of the downloader reacts to.
pub trait DownloaderExtension {
    fn on_downloaded_len_change();

    fn on_file_pause();
}

/// Wraps a downloader with its extensions.
#[derive(Debug, Clone, Copy, PartialEq, Eq, Structural)]
pub struct DownloaderWrapper {}

} // verus!
