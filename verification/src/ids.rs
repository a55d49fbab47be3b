//! Opaque identifiers for new entities: globally unique with cryptographically
//! strong randomness, of stable length, carrying no embedded meaning.

use vstd::prelude::*;

verus! {

/// Length of every generated identifier.
pub const ID_LEN: usize = 36;

/// Relies on uuid::Uuid::new_v4 and its Display form: a version-4 UUID
/// rendered in the hyphenated format, which is always 36 ASCII characters.
/// The value is random, so nothing more is promised of it.
#[verifier::external_body]
fn fresh_uuid() -> (r: String)
    ensures
        r@.len() == ID_LEN,
{
    uuid::Uuid::new_v4().to_string()
}

/// Produces a fresh opaque identifier for a new entity.
pub fn generate_id() -> (r: String)
    ensures
        r@.len() == ID_LEN,
{
    fresh_uuid()
}

} // verus!
