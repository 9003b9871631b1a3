//! Random task ids and their text form, from the `uuid` crate.

use vstd::prelude::*;

verus! {

/// The `Uuid` type of the `uuid` crate, carried as an opaque value.
#[verifier::external_type_specification]
#[verifier::external_body]
pub struct ExUuid(uuid::Uuid);

/// `Clone` of `uuid::Uuid`, which derives `Clone` and `Copy`: the clone is the
/// same id.
pub assume_specification[ <uuid::Uuid as Clone>::clone ](id: &uuid::Uuid) -> (r: uuid::Uuid)
    ensures
        r == *id,
;

/// Calls `uuid::Uuid::new_v4`, a random version 4 id. Nothing is stated of the
/// value: it is random.
#[verifier::external_body]
pub fn new_uuid() -> uuid::Uuid {
    uuid::Uuid::new_v4()
}

/// The text `to_string` gives for an id.
pub uninterp spec fn uuid_text(id: uuid::Uuid) -> Seq<char>;

/// Calls `ToString::to_string` on a `uuid::Uuid`. Its `Display` writes the
/// hyphenated form: 32 hex digits and 4 hyphens, 36 characters. The contract names
/// the text and states its length.
#[verifier::external_body]
pub fn uuid_to_string(id: &uuid::Uuid) -> (r: String)
    ensures
        r@ == uuid_text(*id),
        r@.len() == 36,
{
    id.to_string()
}

} // verus!
