//! Instants and durations of the OS clock, in nanoseconds.

use vstd::prelude::*;

use crate::os::read_os_time;

verus! {

/// Nanoseconds in one second.
pub const NANOS_PER_SEC: u64 = 1_000_000_000;

/// Nanoseconds in one millisecond.
pub const NANOS_PER_MILLI: u64 = 1_000_000;

/// Nanoseconds in one microsecond.
pub const NANOS_PER_MICRO: u64 = 1_000;

/// A unit a duration can be reported in.
#[derive(Debug, Clone, Copy, PartialEq, Eq, Structural)]
pub enum TimeUnit {
    Minutes,
    Seconds,
    Milliseconds,
    Nanoseconds,
}

/// A point in time of the OS clock, in raw nanoseconds.
#[derive(Debug, Clone, Copy, Default, PartialEq, Eq, PartialOrd, Ord, Structural)]
pub struct Instant(u64);

impl Instant {
    /// The raw nanosecond reading this instant carries.
    pub closed spec fn spec_raw(self) -> u64 {
        self.0
    }

    /// Captures the OS clock now.
    pub fn now() -> Self {
        Self(read_os_time())
    }

    /// The time elapsed from `earlier` to `self`.
    pub fn duration_since(&self, earlier: Instant) -> (r: Duration)
        requires
            earlier.spec_raw() <= self.spec_raw(),
        ensures
            r.spec_nanos() == self.spec_raw() - earlier.spec_raw(),
    {
        Duration(self.0 - earlier.0)
    }
}

/// A span of time, in nanoseconds.
#[derive(Debug, Clone, Copy, Default, PartialEq, Eq, PartialOrd, Ord, Structural)]
pub struct Duration(u64);

impl Duration {
    /// The nanosecond count this duration carries.
    pub closed spec fn spec_nanos(self) -> u64 {
        self.0
    }

    /// A duration of `nsecs` nanoseconds.
    pub fn from_nanos(nsecs: u64) -> (r: Self)
        ensures
            r.spec_nanos() == nsecs,
    {
        Self(nsecs)
    }

    /// A duration of `nsecs` nanoseconds.
    pub fn from_nsecs(nsecs: u64) -> (r: Self)
        ensures
            r.spec_nanos() == nsecs,
    {
        Self(nsecs)
    }

    /// The duration in whole nanoseconds.
    pub fn as_nanos(&self) -> (r: u64)
        ensures
            r == self.spec_nanos(),
    {
        self.0
    }

    /// The duration in whole microseconds.
    pub fn as_micros(&self) -> (r: u64)
        ensures
            r == self.spec_nanos() / NANOS_PER_MICRO,
    {
        self.0 / NANOS_PER_MICRO
    }

    /// The duration in whole milliseconds.
    pub fn as_millis(&self) -> (r: u64)
        ensures
            r == self.spec_nanos() / NANOS_PER_MILLI,
    {
        self.0 / NANOS_PER_MILLI
    }

    /// The duration in whole seconds.
    pub fn as_secs(&self) -> (r: u64)
        ensures
            r == self.spec_nanos() / NANOS_PER_SEC,
    {
        self.0 / NANOS_PER_SEC
    }
}

} // verus!
