//! The configuration of one download, and when a download may start.

use vstd::prelude::*;
use std::path::PathBuf;
use url::Url;
use crate::download::error::DownloadStartError;
use crate::download::url_parts::{joined_path, path_join, path_segments, url_path_segments};
use crate::download::uuid_text::{new_uuid, uuid_text, uuid_to_string};

verus! {

/// Default chunk size: 4 MiB.
pub const DEFAULT_CHUNK_SIZE: usize = 4194304;

/// What to download and how. `chunk_size` and `concurrent` are positive.
pub struct DownloaderConfig {
    pub url: Url,
    pub save_dir: PathBuf,
    pub file_name: String,
    pub chunk_size: usize,
    pub concurrent: u8,
    pub retry_count: u8,
}

impl DownloaderConfig {
    /// A configuration with only the URL and the directory to save in: the file is
    /// named after the last path segment of the URL (a random id when the URL has
    /// no path), chunks are 4 MiB, 3 connections, 3 retries.
    pub fn from_url(url: Url, save_dir: PathBuf) -> (r: Self)
        ensures
            r.url == url,
            r.save_dir == save_dir,
            url_path_segments(url) matches Some(segments) ==> r.file_name@ == segments.last(),
            url_path_segments(url) is None ==> r.file_name@.len() == 36 && exists|id: uuid::Uuid|
                r.file_name@ == #[trigger] uuid_text(id),
            r.retry_count == 3,
            r.chunk_size == DEFAULT_CHUNK_SIZE,
            r.concurrent == 3,
    {
        let file_name = match path_segments(&url) {
            Some(segments) => {
                let last = segments.len() - 1;
                proof {
                    assert(segments@.map_values(|s: String| s@)[last as int] == segments@[last as int]@);
                }
                segments[last].clone()
            },
            None => {
                let id = new_uuid();
                let name = uuid_to_string(&id);
                assert(name@ == uuid_text(id));
                name
            },
        };
        Self { url, file_name, retry_count: 3, save_dir, chunk_size: DEFAULT_CHUNK_SIZE, concurrent: 3 }
    }

    /// Where the file is saved: the save directory joined with the file name.
    pub fn file_path(&self) -> (r: PathBuf)
        ensures
            r == joined_path(self.save_dir, self.file_name@),
    {
        path_join(&self.save_dir, &self.file_name)
    }
}

/// Whether a download may start: not while one is running, and only into an
/// existing directory.
pub fn download_start_check(is_downloading: bool, save_dir_exists: bool) -> (r: Result<(), DownloadStartError>)
    ensures
        is_downloading ==> r == Err::<(), DownloadStartError>(DownloadStartError::AlreadyDownloading),
        !is_downloading && !save_dir_exists ==> r == Err::<(), DownloadStartError>(
            DownloadStartError::DirectoryDoesNotExist,
        ),
        !is_downloading && save_dir_exists ==> r is Ok,
{
    if is_downloading {
        return Err(DownloadStartError::AlreadyDownloading);
    }
    if !save_dir_exists {
        return Err(DownloadStartError::DirectoryDoesNotExist);
    }
    Ok(())
}

} // verus!
