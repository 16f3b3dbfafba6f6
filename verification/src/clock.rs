//! The wall clock, for callers that stamp measurements with the moment they
//! arrive. Reading a clock is inherently outside any contract about values:
//! all that can be promised is the shape of what comes back.

use vstd::prelude::*;

verus! {

/// Relies on `std::time::SystemTime::now` and `duration_since`: the
/// milliseconds elapsed since the Unix epoch, or nothing when the system
/// clock stands before the epoch.
#[verifier::external_body]
fn clock_millis() -> (r: Option<u128>) {
    match std::time::SystemTime::now().duration_since(std::time::SystemTime::UNIX_EPOCH) {
        Ok(d) => Some(d.as_millis()),
        Err(_) => None,
    }
}

/// The current time as a moment offset: milliseconds since the Unix epoch.
/// Nothing when the clock stands before the epoch or past what a moment can
/// hold; a returned moment is never negative.
pub fn now() -> (r: Option<i64>)
    ensures
        r matches Some(v) ==> v >= 0,
{
    match clock_millis() {
        Some(ms) => if ms <= i64::MAX as u128 {
            Some(ms as i64)
        } else {
            None
        },
        None => None,
    }
}

} // verus!
