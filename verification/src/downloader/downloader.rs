use vstd::prelude::*;
use crate::extension::DownloaderWrapper;

verus! {

/// Downloads one file over HTTP.
pub struct HttpFileDownloader {}

/// A file downloader with its extensions.
pub struct ExtendedHttpFileDownloader {
    pub inner: HttpFileDownloader,
    downloader_wrapper: Box<DownloaderWrapper>,
}

impl ExtendedHttpFileDownloader {
    pub fn new(downloader: HttpFileDownloader, wrapper: Box<DownloaderWrapper>) -> (r: Self)
        ensures
            r.downloader() == downloader,
            r.wrapper() == *wrapper,
    {
        Self { inner: downloader, downloader_wrapper: wrapper }
    }

    /// The wrapped downloader.
    pub closed spec fn downloader(&self) -> HttpFileDownloader {
        self.inner
    }

    /// The extension wrapper.
    pub closed spec fn wrapper(&self) -> DownloaderWrapper {
        *self.downloader_wrapper
    }
}

} // verus!
