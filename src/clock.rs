//! The wall clock, read where an operation records when it happened.
use vstd::prelude::*;

verus! {

/// Relies on std::time::SystemTime::now: milliseconds since the Unix epoch,
/// 0 when the clock stands before it. Nothing is promised of the value.
#[verifier::external_body]
pub(crate) fn wall_clock_ms() -> (r: u64) {
    match std::time::SystemTime::now().duration_since(std::time::UNIX_EPOCH) {
        Ok(d) => d.as_millis() as u64,
        Err(_) => 0,
    }
}

} // verus!
