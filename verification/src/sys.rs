//! Trusted wrappers around the identifier and clock crates.
//!
//! Everything else in the library is deterministic; fresh identifiers and
//! the current time are the two effects the models need, and both come
//! through here.

use vstd::prelude::*;

verus! {

/// Relies on uuid::Uuid::new_v4 and its Display form: a fresh random
/// identifier rendered as the 36-character hyphenated string.
#[verifier::external_body]
pub(crate) fn fresh_id() -> (r: String)
    ensures
        r@.len() == 36,
{
    uuid::Uuid::new_v4().to_string()
}

/// Relies on chrono::Utc::now and timestamp_millis: the current wall-clock
/// time in milliseconds since the Unix epoch. Nothing is promised of the
/// value; callers clamp or order it themselves.
#[verifier::external_body]
pub(crate) fn now_millis() -> i64 {
    chrono::Utc::now().timestamp_millis()
}

} // verus!
