use vstd::prelude::*;
use crate::downloader::chunk_range::ChunkRange;

verus! {

/// One chunk handed out for downloading: its sequence number and byte range.
#[derive(Debug, Clone, Copy, PartialEq, Eq, Structural)]
pub struct ChunkInfo {
    pub index: usize,
    pub range: ChunkRange,
}

} // verus!
