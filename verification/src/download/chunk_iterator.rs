use vstd::prelude::*;
use crate::download::chunk_range::ChunkRange;

verus! {

/// Iterates over one chunk range.
pub struct ChunkIterator {
    chunk_range: ChunkRange,
}

impl ChunkIterator {
    pub fn new(chunk_range: ChunkRange) -> (r: Self)
        ensures
            r.range() == chunk_range,
    {
        Self { chunk_range }
    }

    /// The range iterated over.
    pub closed spec fn range(&self) -> ChunkRange {
        self.chunk_range
    }
}

} // verus!
