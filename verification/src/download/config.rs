//! The downloader's configuration.

use vstd::prelude::*;

verus! {

/// One file to download, optionally with the name to save it under.
#[derive(Debug)]
pub struct DownloadConfig {
    pub url: String,
    pub file_name: Option<String>,
}

/// The downloader's settings and the files to download.
#[derive(Debug)]
pub struct Config {
    pub max_concurrent_downloads: usize,
    pub chunk_size: u64,
    pub retry_times: usize,
    pub download_dir: String,
    pub tasks: Vec<DownloadConfig>,
}

} // verus!
