//! The wall clock, read as whole milliseconds.

use vstd::prelude::*;

verus! {

/// Relies on `std::time::SystemTime::now`: reads the wall clock and converts
/// it to milliseconds since the Unix epoch (zero for clocks set before it).
/// Nothing is promised of the value: the clock may move arbitrarily between
/// reads, so every caller states what holds of any reading.
#[verifier::external_body]
pub(crate) fn now_millis() -> u64 {
    match std::time::SystemTime::now().duration_since(std::time::UNIX_EPOCH) {
        Ok(elapsed) => elapsed.as_millis() as u64,
        Err(_) => 0,
    }
}

} // verus!
