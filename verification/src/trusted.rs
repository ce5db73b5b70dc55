//! Wrappers around the clock and identifier sources of outside crates.
//!
//! Everything here is taken on trust: the bodies call into `chrono` and
//! `uuid`, whose results depend on the wall clock and on randomness, so the
//! contracts promise only what holds of every outcome.

use vstd::prelude::*;

verus! {

/// Relies on chrono's `DateTime::<Utc>::to_rfc3339` applied to `Utc::now()`:
/// the wall-clock time as an RFC 3339 string. The value depends on the clock,
/// so nothing is promised about it.
#[verifier::external_body]
pub fn now_rfc3339() -> String {
    chrono::Utc::now().to_rfc3339()
}

/// Relies on uuid's `Uuid::new_v4` and its `Display` impl: a random
/// identifier rendered in the hyphenated form, which is always 36 characters
/// long. The value is random, so only its length is promised.
#[verifier::external_body]
pub fn fresh_uuid() -> (r: String)
    ensures
        r@.len() == 36,
{
    uuid::Uuid::new_v4().to_string()
}

} // verus!
