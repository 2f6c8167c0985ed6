//! Trusted boundary to the `uuid` crate: fresh session identifiers.

use vstd::prelude::*;

verus! {

/// Relies on `uuid::Uuid::new_v4` and its `Display` rendering: returns a
/// random version-4 UUID as its 36-character hyphenated text form. The
/// value is random, so nothing relates two calls; the registry itself
/// checks candidates against the identifiers already in use.
#[verifier::external_body]
pub(crate) fn new_session_id() -> (r: String)
    ensures
        r@.len() == 36,
{
    uuid::Uuid::new_v4().to_string()
}

} // verus!
