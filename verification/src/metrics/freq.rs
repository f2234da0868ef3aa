//! The calibrated frequency of the cycle counter.

use vstd::prelude::*;

use crate::arch::read_cpu_counter_frequency;
use crate::metrics::time::NANOS_PER_SEC;

verus! {

/// Hertz in one megahertz.
pub const MEGAS_IN_HERTZ: u64 = 1_000_000;

/// Hertz in one gigahertz.
pub const GIGAS_IN_HERTZ: u64 = 1_000_000_000;

/// A counter frequency, in ticks per second.
#[derive(Debug, Clone, Copy, Default, PartialEq, Eq, PartialOrd, Ord, Structural)]
pub struct Frequency(u64);

impl Frequency {
    /// The frequency in hertz this value carries.
    pub closed spec fn spec_hertz(self) -> u64 {
        self.0
    }

    /// Calibrates the counter frequency. Repeated calls return the same
    /// value within one process lifetime: the clock-backed counter always
    /// ticks at [`NANOS_PER_SEC`] hertz.
    pub fn read() -> (r: Self)
        ensures
            r.spec_hertz() == NANOS_PER_SEC,
    {
        let freq = read_cpu_counter_frequency();
        Self(freq)
    }

    /// A frequency of `freq` hertz.
    pub fn from_hertz(freq: u64) -> (r: Self)
        ensures
            r.spec_hertz() == freq,
    {
        Self(freq)
    }

    /// A frequency of `freq` gigahertz.
    pub fn from_gigas(freq: u64) -> (r: Self)
        requires
            freq * GIGAS_IN_HERTZ <= u64::MAX,
        ensures
            r.spec_hertz() == freq * GIGAS_IN_HERTZ,
    {
        Self(freq * GIGAS_IN_HERTZ)
    }

    /// The frequency in whole hertz.
    pub fn in_hertz(&self) -> (r: u64)
        ensures
            r == self.spec_hertz(),
    {
        self.0
    }

    /// The frequency in whole megahertz.
    pub fn in_megas(&self) -> (r: u64)
        ensures
            r == self.spec_hertz() / MEGAS_IN_HERTZ,
    {
        self.0 / MEGAS_IN_HERTZ
    }

    /// The frequency in whole gigahertz.
    pub fn in_gigas(&self) -> (r: u64)
        ensures
            r == self.spec_hertz() / GIGAS_IN_HERTZ,
    {
        self.0 / GIGAS_IN_HERTZ
    }
}

} // verus!
