//! The wall clock, as milliseconds since the Unix epoch.
//!
//! Time drives session expiry and the `upload_time` field of finalized
//! records. The clock is read through one wrapper; nothing is assumed about
//! the value it returns, so every caller's contract holds whatever the clock
//! says.

use vstd::prelude::*;

verus! {

/// Relies on chrono::Utc::now and DateTime::timestamp_millis: the current
/// wall-clock time in milliseconds since the Unix epoch. The value depends
/// on the machine's clock, so no two calls are related by contract.
#[verifier::external_body]
pub fn now_millis() -> i64 {
    chrono::Utc::now().timestamp_millis()
}

} // verus!
