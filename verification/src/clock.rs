//! Points in time, as the library records them.

use vstd::prelude::*;

verus! {

/// A point in time: whole seconds since the start of 1970 (UTC), and the
/// nanoseconds into that second.
#[derive(Clone, Copy, Debug, PartialEq, Eq, Structural)]
pub struct Timestamp {
    pub seconds: i64,
    pub nanoseconds: u32,
}

/// Reads the clock.
///
/// Calls `chrono::Utc::now` and takes the result apart with
/// `DateTime::timestamp` and `DateTime::timestamp_subsec_nanos`. The value
/// depends on when the call is made, so nothing is claimed of it.
#[verifier::external_body]
pub(crate) fn now() -> (time: Timestamp) {
    let time = chrono::Utc::now();
    Timestamp { seconds: time.timestamp(), nanoseconds: time.timestamp_subsec_nanos() }
}

} // verus!
