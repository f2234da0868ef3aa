//! Trusted access to the platform's clocks.
//!
//! Every reading the profiler works with comes from one of the two wrappers
//! here. `MetricClock` is the session source: its readings are nanoseconds
//! elapsed since the clock was created, and they never decrease, which is the
//! monotonicity the timing engine's proofs rest on. `wall_clock_nanos` backs
//! the free-standing raw readers, which promise nothing.

use vstd::prelude::*;

verus! {

#[verifier::external_type_specification]
#[verifier::external_body]
pub struct ExInstant(std::time::Instant);

/// A monotonic session clock. Raw ticks are nanoseconds elapsed since the
/// clock was created; `lo` is a lower bound on every future reading, namely
/// the largest reading handed out so far.
pub struct MetricClock {
    epoch: std::time::Instant,
    lo: Ghost<u64>,
}

/// Relies on `std::time::Instant::now` to capture a clock epoch.
pub assume_specification[ std::time::Instant::now ]() -> std::time::Instant;

impl MetricClock {
    /// The largest reading handed out so far: a lower bound on every
    /// future reading.
    pub closed spec fn spec_lo(self) -> u64 {
        self.lo@
    }

    /// Opens a fresh session clock whose readings start at its epoch.
    pub fn new() -> (r: MetricClock)
        ensures
            r.spec_lo() == 0,
    {
        MetricClock { epoch: std::time::Instant::now(), lo: Ghost(0) }
    }

    /// Relies on `std::time::Instant::elapsed`: `Instant` measures a
    /// monotonically nondecreasing clock, so consecutive readings of one
    /// `MetricClock` never decrease. Readings saturate at `u64::MAX`
    /// nanoseconds, which keeps them nondecreasing even then.
    #[verifier::external_body]
    pub fn read(&mut self) -> (r: u64)
        ensures
            r >= old(self).spec_lo(),
            final(self).spec_lo() == r,
    {
        u64::try_from(self.epoch.elapsed().as_nanos()).unwrap_or(u64::MAX)
    }
}

/// Relies on `std::time::SystemTime::now`: the system clock, reported as
/// nanoseconds since the UNIX epoch (zero if the clock sits before it,
/// saturated if it no longer fits). Nothing is promised of it: the system
/// clock may be adjusted at any time.
#[verifier::external_body]
pub(crate) fn wall_clock_nanos() -> u64 {
    match std::time::SystemTime::now().duration_since(std::time::UNIX_EPOCH) {
        Ok(d) => u64::try_from(d.as_nanos()).unwrap_or(u64::MAX),
        Err(_) => 0,
    }
}

} // verus!
