//! Access to the system clock.
//!
//! All task logic takes the current time as an explicit argument (a
//! count of milliseconds since the Unix epoch); this module holds the
//! single place where the wall clock is actually read.

use vstd::prelude::*;

verus! {

/// Relies on std's `SystemTime::now` and `duration_since`: the
/// current wall-clock time, as milliseconds since the Unix epoch.
/// Neither call can panic: a clock set before the epoch comes back as
/// the `Err` variant and reads as zero, and a count too large for the
/// result type saturates. Nothing is promised of the value; callers
/// must hold for every possible reading.
#[verifier::external_body]
pub(crate) fn now_millis() -> i64 {
    match std::time::SystemTime::now().duration_since(std::time::UNIX_EPOCH) {
        Ok(since_epoch) => i64::try_from(since_epoch.as_millis()).unwrap_or(i64::MAX),
        Err(_) => 0,
    }
}

} // verus!
