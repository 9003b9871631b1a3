use vstd::prelude::*;
use crate::download::chunk_range::ChunkData;

verus! {

/// The state of a stopped download, kept to resume it.
pub struct Archiver {
    pub downloaded_len: u64,
    pub chunk_data: Option<ChunkData>,
}

} // verus!
