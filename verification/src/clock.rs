//! The two clocks: wall time, which goes into messages, and a monotonic clock,
//! which measures silence and run time.

use tokio::time::Instant;
use vstd::prelude::*;

verus! {

/// A reading of tokio's monotonic clock. It is only ever handed back to the
/// functions below.
#[verifier::external_type_specification]
#[verifier::external_body]
pub struct ExInstant(tokio::time::Instant);

/// `tokio::time::Instant::now` reads the monotonic clock. Nothing is claimed of
/// the reading: it depends on the time at which it is taken.
pub assume_specification[ tokio::time::Instant::now ]() -> (now: Instant)
;

/// Calls `tokio::time::Instant::elapsed` and gives the duration in nanoseconds.
/// Nothing is claimed of the result: it depends on the time of the call.
#[verifier::external_body]
fn instant_elapsed_ns(since: &Instant) -> (ns: u128) {
    since.elapsed().as_nanos()
}

/// Calls `std::time::SystemTime::elapsed` on the Unix epoch and gives the
/// duration in nanoseconds, or `None` where the wall clock stands before the
/// epoch. Nothing is claimed of the result: it depends on the time of the call.
#[verifier::external_body]
fn unix_epoch_elapsed_ns() -> (ns: Option<u128>) {
    match std::time::UNIX_EPOCH.elapsed() {
        Ok(elapsed) => Some(elapsed.as_nanos()),
        Err(_) => None,
    }
}

/// The timestamp for a wall clock that stands `elapsed_ns` after the Unix epoch:
/// zero before the epoch, and no more than a `u64` holds.
pub fn unix_timestamp(elapsed_ns: Option<u128>) -> (timestamp: u64)
    ensures
        timestamp == match elapsed_ns {
            None => 0,
            Some(ns) => if ns <= u64::MAX {
                ns as u64
            } else {
                u64::MAX
            },
        },
{
    match elapsed_ns {
        None => 0,
        Some(ns) => if ns <= u64::MAX as u128 {
            ns as u64
        } else {
            u64::MAX
        },
    }
}

/// The wall clock in nanoseconds since the Unix epoch: what `unix_timestamp`
/// makes of the clock as it stands. Any `u64` can come back.
pub fn unix_now_ns_u64() -> (now_ns: u64) {
    unix_timestamp(unix_epoch_elapsed_ns())
}

/// A stopwatch on the monotonic clock.
pub struct MonotonicClock {
    origin: Instant,
}

impl MonotonicClock {
    /// Starts the stopwatch.
    pub fn start() -> (clock: MonotonicClock) {
        MonotonicClock { origin: Instant::now() }
    }

    /// Nanoseconds since the start. What comes back rests on the time of the call.
    pub fn now_ns(&self) -> (now_ns: u128) {
        instant_elapsed_ns(&self.origin)
    }
}

/// `ms` milliseconds in nanoseconds.
pub fn ms_to_ns(ms: u64) -> (ns: u128)
    ensures
        ns == ms * 1_000_000,
{
    ms as u128 * 1_000_000
}

/// `secs` seconds in nanoseconds.
pub fn secs_to_ns(secs: u64) -> (ns: u128)
    ensures
        ns == secs * 1_000_000_000,
{
    secs as u128 * 1_000_000_000
}

} // verus!
