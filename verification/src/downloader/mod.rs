pub mod chunk_info;
pub mod chunk_item;
pub mod chunk_iterator;
pub mod chunk_manager;
pub mod chunk_range;
pub mod download_config;
pub mod download_way;
pub mod downloader;
pub mod error;
pub mod util;

use vstd::prelude::*;
use url::Url;
use crate::download::url_parts::{path_segments, url_path_segments};
use crate::downloader::chunk_iterator::ChunkIteratorData;
use crate::downloader::download_config::{default_client, HttpDownloadConfig};
use reqwest::Client;
use tokio_util::sync::CancellationToken;
use std::path::PathBuf;

verus! {

/// What is kept of a download to resume it later.
#[derive(Debug, Clone)]
pub struct DownloadArchiveData {
    pub downloaded_len: u64,
    pub downloading_duration: u32,
    pub chunk_data: Option<ChunkIteratorData>,
}

/// Chunk size a new builder starts with: 4 MiB.
pub const BUILDER_CHUNK_SIZE: usize = 4194304;

/// Interval, in milliseconds, at which a new builder's downloads report the
/// downloaded length.
pub const BUILDER_LEN_SEND_INTERVAL_MS: u64 = 300;

/// Collects the settings of a download before it is built; each starts at a
/// default that `new` states.
pub struct HttpDownloaderBuilder {
    pub chunk_size: usize,
    pub download_connection_count: u8,
    pub url: Url,
    pub save_dir: PathBuf,
    pub set_len_in_advance: bool,
    pub file_name: Option<String>,
    pub create_dir: bool,
    pub request_retry_count: u8,
    /// Interval, in milliseconds, at which the downloaded length is reported.
    pub downloaded_len_send_interval_ms: Option<u64>,
    pub strict_check_accept_ranges: bool,
    pub use_browser_user_agent: bool,
    pub client: Option<Client>,
    pub cancel_token: Option<CancellationToken>,
}

impl HttpDownloaderBuilder {
    /// A builder for the file at `url`, saved in `save_dir`: 4 MiB chunks over 3
    /// connections, 3 retries, the directory created, ranges checked strictly, a
    /// browser user agent, the length reported every 300 ms, and the file's
    /// length not set in advance, its name not chosen, and neither a client nor a
    /// cancel token given.
    pub fn new(url: Url, save_dir: PathBuf) -> (r: Self)
        ensures
            r.url == url,
            r.save_dir == save_dir,
            r.chunk_size == BUILDER_CHUNK_SIZE,
            r.download_connection_count == 3,
            r.request_retry_count == 3,
            r.create_dir,
            r.strict_check_accept_ranges,
            r.use_browser_user_agent,
            !r.set_len_in_advance,
            r.file_name is None,
            r.downloaded_len_send_interval_ms == Some(BUILDER_LEN_SEND_INTERVAL_MS),
            r.client is None,
            r.cancel_token is None,
    {
        Self {
            url,
            save_dir,
            create_dir: true,
            strict_check_accept_ranges: true,
            set_len_in_advance: false,
            use_browser_user_agent: true,
            request_retry_count: 3,
            chunk_size: BUILDER_CHUNK_SIZE,
            download_connection_count: 3,
            file_name: None,
            downloaded_len_send_interval_ms: Some(BUILDER_LEN_SEND_INTERVAL_MS),
            client: None,
            cancel_token: None,
        }
    }

    /// The client to download with; `None` for a default one.
    pub fn set_client(self, client: Option<Client>) -> (r: Self)
        ensures
            r == (Self { client, ..self }),
    {
        let mut builder = self;
        builder.client = client;
        builder
    }

    /// The token that cancels the download.
    pub fn set_cancel_token(self, cancel_token: Option<CancellationToken>) -> (r: Self)
        ensures
            r == (Self { cancel_token, ..self }),
    {
        let mut builder = self;
        builder.cancel_token = cancel_token;
        builder
    }

    /// The client to download with, the builder's or else a new default one, and
    /// the settings of the download: those of the builder, the file named after
    /// the URL when no name was chosen, and no interval for sending chunks.
    pub fn build(self) -> (r: (Client, HttpDownloadConfig))
        ensures
            self.client matches Some(c) ==> r.0 == c,
            r.1.set_len_in_advance == self.set_len_in_advance,
            r.1.download_connection_count == self.download_connection_count,
            r.1.chunk_size == self.chunk_size,
            r.1.chunks_send_interval_ms is None,
            r.1.save_dir == self.save_dir,
            r.1.file_name@ == match self.file_name {
                Some(name) => name@,
                None => url_file_name(url_path_segments(self.url)),
            },
            r.1.create_dir == self.create_dir,
            r.1.url == self.url,
            r.1.request_retry_count == self.request_retry_count,
            r.1.downloaded_len_send_interval_ms == self.downloaded_len_send_interval_ms,
            r.1.strict_check_accept_ranges == self.strict_check_accept_ranges,
            r.1.use_browser_use_agent == self.use_browser_user_agent,
            r.1.cancel_token == self.cancel_token,
    {
        let client = match self.client {
            Some(client) => client,
            None => default_client(),
        };
        let file_name = match self.file_name {
            Some(name) => name,
            None => self.url.file_name(),
        };
        let config = HttpDownloadConfig {
            set_len_in_advance: self.set_len_in_advance,
            download_connection_count: self.download_connection_count,
            chunk_size: self.chunk_size,
            chunks_send_interval_ms: None,
            save_dir: self.save_dir,
            file_name,
            create_dir: self.create_dir,
            url: self.url,
            request_retry_count: self.request_retry_count,
            downloaded_len_send_interval_ms: self.downloaded_len_send_interval_ms,
            strict_check_accept_ranges: self.strict_check_accept_ranges,
            use_browser_use_agent: self.use_browser_user_agent,
            cancel_token: self.cancel_token,
        };
        (client, config)
    }
}

/// The name a page gets when a URL names no file.
pub open spec fn website_default() -> Seq<char> {
    seq!['i', 'n', 'd', 'e', 'x', '.', 'h', 't', 'm', 'l']
}

/// The file name a URL designates: its last path segment, or `index.html` when
/// that segment is empty or the URL has no path.
pub open spec fn url_file_name(segments: Option<Seq<Seq<char>>>) -> Seq<char> {
    match segments {
        Some(s) => if s.len() == 0 || s.last().len() == 0 {
            website_default()
        } else {
            s.last()
        },
        None => website_default(),
    }
}

/// A file name for a URL.
pub trait UrlFileName {
    fn file_name(&self) -> String;
}

impl UrlFileName for Url {
    fn file_name(&self) -> (r: String)
        ensures
            r@ == url_file_name(url_path_segments(*self)),
    {
        let default_name = String::from_str("index.html");
        proof {
            reveal_strlit("index.html");
            assert(default_name@ =~= website_default());
        }
        match path_segments(self) {
            Some(segments) => {
                let last = segments.len() - 1;
                proof {
                    assert(segments@.map_values(|s: String| s@)[last as int] == segments@[last as int]@);
                }
                if segments[last].as_str().is_empty() {
                    default_name
                } else {
                    segments[last].clone()
                }
            },
            None => default_name,
        }
    }
}

/// Law: a file is named after the last segment of its URL's path, whenever that
/// segment is not empty; only a URL without a path, or whose path ends in an
/// empty segment, gives `index.html`.
pub proof fn lemma_file_name_is_last_segment(segments: Option<Seq<Seq<char>>>)
    ensures
        segments is Some && segments->0.len() > 0 && segments->0.last().len() > 0 ==> url_file_name(segments)
            == segments->0.last(),
        segments is None || segments->0.len() == 0 || segments->0.last().len() == 0 ==> url_file_name(segments)
            == seq!['i', 'n', 'd', 'e', 'x', '.', 'h', 't', 'm', 'l'],
        url_file_name(segments).len() > 0,
{
}

} // verus!
