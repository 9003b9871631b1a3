use vstd::prelude::*;
pub use crate::download::chunk_range::ChunkRange;

verus! {

impl ChunkRange {
    /// The rest of this range once its first `offset` bytes are received.
    pub fn clone_with_offset(&self, offset: u64) -> (r: ChunkRange)
        requires
            self.start + offset <= u64::MAX,
        ensures
            r.start == self.start + offset,
            r.end == self.end,
            r.spec_len() == self.spec_len() - offset,
    {
        ChunkRange { start: self.start + offset, end: self.end }
    }
}

} // verus!
