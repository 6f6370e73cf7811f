use vstd::prelude::*;
use crate::raftstore::store_balancer::DURATION_MAX_NANOS;

verus! {

/// Reads the wall clock with `std::time::SystemTime::now` and returns the
/// whole milliseconds since the Unix epoch (0 for a clock set before it).
/// Nothing is claimed of the value: it depends on the machine's clock.
#[verifier::external_body]
pub(crate) fn unix_now_millis() -> (r: u64) {
    match std::time::SystemTime::now().duration_since(std::time::UNIX_EPOCH) {
        Ok(d) => d.as_millis() as u64,
        Err(_) => 0,
    }
}

/// Reads the wall clock with `std::time::SystemTime::now` and returns the
/// nanoseconds since the Unix epoch (0 for a clock set before it). Claimed:
/// the value is the length of a `Duration`, so it is at most that of
/// `Duration::MAX`; which time it gives depends on the machine's clock and
/// is left unsaid.
#[verifier::external_body]
pub(crate) fn unix_now_nanos() -> (r: u128)
    ensures
        r <= DURATION_MAX_NANOS,
{
    match std::time::SystemTime::now().duration_since(std::time::UNIX_EPOCH) {
        Ok(d) => d.as_nanos(),
        Err(_) => 0,
    }
}

} // verus!
