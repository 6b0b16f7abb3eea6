//! Nanosecond timestamp source.
//!
//! Producer and consumer must stamp records from one monotonic host clock
//! for cross-process latency arithmetic to be meaningful.  The monotonic
//! syscall needs what this library cannot hold, so the production ingress
//! reads that clock itself and hands the value to the hot path as a plain
//! argument; the reading here is the library's own fallback source.
//! Nothing can be promised of a clock reading as a function of the call's
//! arguments, so the contract leaves the value open and every caller is
//! verified for all of them.

use vstd::prelude::*;

verus! {

/// Relies on std::time::SystemTime::now and duration_since: nanoseconds
/// elapsed since the UNIX epoch, or zero if the host clock reads before
/// the epoch.  Wall-clock derived, so it can step under clock adjustment;
/// callers that need monotonic stamps pass one in instead.  The value
/// depends on the moment of the call, so nothing is stated of it.
#[verifier::external_body]
pub fn now_ns() -> u64 {
    std::time::SystemTime::now().duration_since(std::time::UNIX_EPOCH).map(
        |d| d.as_nanos() as u64,
    ).unwrap_or(0)
}

} // verus!
