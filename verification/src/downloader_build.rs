use vstd::prelude::*;
use crate::downloader::downloader::{ExtendedHttpFileDownloader, HttpFileDownloader};
use crate::extension::DownloaderWrapper;

verus! {

/// Builds a file downloader with its extensions.
pub struct DownloaderBuild {}

impl DownloaderBuild {
    pub fn new() -> Self {
        Self {}
    }

    pub fn build() -> (r: (ExtendedHttpFileDownloader, ()))
        ensures
            r.0.downloader() == (HttpFileDownloader {}),
            r.0.wrapper() == (DownloaderWrapper {}),
    {
        let downloader = HttpFileDownloader {};
        let wrapper = Box::new(DownloaderWrapper {});
        (ExtendedHttpFileDownloader::new(downloader, wrapper), ())
    }
}

} // verus!
