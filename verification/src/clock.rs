//! The wall clock, through `chrono`.

use vstd::prelude::*;

verus! {

/// `chrono::Utc::now().timestamp()`: the current Unix time in seconds. Nothing
/// is stated of it.
#[verifier::external_body]
pub(crate) fn now_unix_seconds() -> (t: i64) {
    chrono::Utc::now().timestamp()
}

/// `chrono::Utc::now().timestamp_millis()`: the current Unix time in
/// milliseconds. Nothing is stated of it.
#[verifier::external_body]
pub(crate) fn now_unix_millis() -> (t: i64) {
    chrono::Utc::now().timestamp_millis()
}

} // verus!
