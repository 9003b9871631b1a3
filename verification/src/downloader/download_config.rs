//! The settings of one download, as plain values.

use vstd::prelude::*;
use std::path::PathBuf;
use url::Url;
use crate::download::url_parts::{joined_path, path_join};

verus! {

/// The `Client` type of the `reqwest` crate, carried as an opaque value.
#[verifier::external_type_specification]
#[verifier::external_body]
pub struct ExClient(reqwest::Client);

/// The `CancellationToken` type of the `tokio-util` crate, carried as an opaque value.
#[verifier::external_type_specification]
#[verifier::external_body]
pub struct ExCancellationToken(tokio_util::sync::CancellationToken);

/// Calls `reqwest::Client::default`, which builds a client with the default
/// settings. Nothing is stated of the client. Its source panics when the machine
/// gives it no TLS backend or resolver configuration, which no argument decides.
#[verifier::external_body]
pub(crate) fn default_client() -> reqwest::Client {
    reqwest::Client::default()
}

/// What a download is told: where the file comes from and goes, how it is cut in
/// chunks and over how many connections, and how requests are retried. Intervals
/// are in milliseconds.
pub struct HttpDownloadConfig {
    /// Set the file's length before downloading, so that a lack of space shows early.
    pub set_len_in_advance: bool,
    pub download_connection_count: u8,
    pub chunk_size: usize,
    pub chunks_send_interval_ms: Option<u64>,
    pub save_dir: PathBuf,
    pub file_name: String,
    pub create_dir: bool,
    pub url: Url,
    pub request_retry_count: u8,
    pub downloaded_len_send_interval_ms: Option<u64>,
    pub strict_check_accept_ranges: bool,
    pub use_browser_use_agent: bool,
    pub cancel_token: Option<tokio_util::sync::CancellationToken>,
}

impl HttpDownloadConfig {
    /// The path of the downloaded file: the file name joined to the directory.
    pub fn file_path(&self) -> (r: PathBuf)
        ensures
            r == joined_path(self.save_dir, self.file_name@),
    {
        path_join(&self.save_dir, &self.file_name)
    }
}

} // verus!
