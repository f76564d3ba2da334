//! The two platform suppliers the core consumes: a wall clock and a source
//! of fresh identifiers.  Both are trusted at this boundary; every contract
//! downstream holds whatever values they return.

use vstd::prelude::*;

verus! {

/// Relies on chrono's `Utc::now` / `timestamp_millis`: the platform clock in
/// milliseconds since the Unix epoch.  Nothing is promised of the value; the
/// callers' contracts hold for every reading.
#[verifier::external_body]
pub fn now_ms() -> i64 {
    chrono::Utc::now().timestamp_millis()
}

/// Relies on uuid's `Uuid::new_v4`: a fresh random version-4 identifier,
/// rendered in the hyphenated form, which is always 36 characters long.
/// Nothing is promised about distinctness: it is random.
#[verifier::external_body]
pub fn new_uuid() -> (r: String)
    ensures
        r@.len() == 36,
{
    uuid::Uuid::new_v4().to_string()
}

} // verus!
