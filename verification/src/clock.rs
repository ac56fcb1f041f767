//! The wall clock.

use vstd::prelude::*;

verus! {

/// Calls `OffsetDateTime::now_utc().unix_timestamp()` of `time`: the seconds
/// since the Unix epoch, read from the system clock. Nothing is claimed of
/// the number.
#[verifier::external_body]
pub(crate) fn now() -> (seconds: i64) {
    time::OffsetDateTime::now_utc().unix_timestamp()
}

} // verus!
