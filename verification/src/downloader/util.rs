//! The length of the file to download, read from a HEAD reply, as a `usize`.

use vstd::prelude::*;
use crate::utils::{all_visible_ascii, decimal_value, digits_of, parse_u64, parses_u64, is_visible_text};

verus! {

/// The length of a file from the `Content-Length` header of a HEAD reply:
/// `None` when the header is missing, holds a byte that is not visible ASCII,
/// or does not read as a `usize`.
pub fn file_length_from_header(header: Option<&[u8]>) -> (r: Option<usize>)
    ensures
        r == (match header {
            Some(h) => if all_visible_ascii(h@) && parses_u64(h@) && decimal_value(digits_of(h@)) <= usize::MAX {
                Some(decimal_value(digits_of(h@)) as usize)
            } else {
                None::<usize>
            },
            None => None::<usize>,
        }),
{
    match header {
        Some(h) => {
            if !is_visible_text(h) {
                return None;
            }
            match parse_u64(h) {
                Some(n) => {
                    assert(n == decimal_value(digits_of(h@)));
                    if n <= usize::MAX as u64 {
                        Some(n as usize)
                    } else {
                        None
                    }
                },
                None => None,
            }
        },
        None => None,
    }
}

} // verus!
