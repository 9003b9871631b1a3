//! The decision of a single-connection download on received bytes.

use vstd::prelude::*;

verus! {

/// Received bytes are written out first when `incoming` more bytes would not fit
/// the buffer's `capacity` next to the `buffered` ones.
pub fn buffer_overflows(buffered: usize, incoming: usize, capacity: usize) -> (r: bool)
    requires
        buffered + incoming <= usize::MAX,
    ensures
        r == (buffered + incoming > capacity),
{
    buffered + incoming > capacity
}

} // verus!
