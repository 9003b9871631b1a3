use vstd::prelude::*;
use crate::downloader::chunk_info::ChunkInfo;
use crate::downloader::chunk_iterator::RemainingChunks;

verus! {

/// What is kept of a download to resume it: bytes downloaded, ranges not handed
/// out yet, and chunks that were interrupted.
#[derive(Debug, Clone)]
pub struct DownloadArchiveData {
    pub downloaded_len: u64,
    pub remaining_chunks: RemainingChunks,
    pub last_incomplete_chunks: Vec<ChunkInfo>,
}

/// Archives of downloads.
pub struct Archive {}

} // verus!
