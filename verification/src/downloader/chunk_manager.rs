use vstd::prelude::*;

verus! {

/// Splits a download into chunks.
pub struct ChunkManger {}

impl ChunkManger {
    pub fn new() -> Self {
        Self {}
    }
}

} // verus!
