//! The length of the file to download, read from a HEAD reply.

use vstd::prelude::*;
use crate::utils::{all_visible_ascii, decimal_value, digits_of, parse_u64, parses_u64, is_visible_text};

verus! {

/// The length of a file from the `Content-Length` header of a HEAD reply,
/// whatever its status: `None` when the header is missing, holds a byte that is
/// not visible ASCII, or does not read as a `u64`.
pub fn file_length_from_header(header: Option<&[u8]>) -> (r: Option<u64>)
    ensures
        r == (match header {
            Some(h) => if all_visible_ascii(h@) && parses_u64(h@) {
                Some(decimal_value(digits_of(h@)) as u64)
            } else {
                None::<u64>
            },
            None => None::<u64>,
        }),
{
    match header {
        Some(h) => {
            if is_visible_text(h) {
                parse_u64(h)
            } else {
                None
            }
        },
        None => None,
    }
}

} // verus!
