//! The wall clock.

use vstd::prelude::*;

verus! {

/// Reads the wall clock with `chrono::Utc::now` and returns `timestamp_millis` of the
/// reading: milliseconds since the start of 1970, UTC. Nothing is claimed of the value;
/// every rule that uses a time is proved for all times. `Utc::now` panics on a machine
/// whose clock is set before 1970, which no argument of this function can rule out.
#[verifier::external_body]
pub(crate) fn now_millis() -> (now: i64) {
    chrono::Utc::now().timestamp_millis()
}

} // verus!
