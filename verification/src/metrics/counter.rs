//! Raw readings of the cycle counter.

use vstd::prelude::*;

use crate::arch::read_cpu_counter;
use crate::error::ProfileError;

verus! {

/// A raw cycle-counter reading, in ticks.
#[derive(Debug, Clone, Copy, Default, PartialEq, Eq, PartialOrd, Ord, Structural)]
pub struct Counter(u64);

impl Counter {
    /// The tick count this value carries.
    pub closed spec fn spec_cycles(self) -> u64 {
        self.0
    }

    /// A counter value of `cycles` ticks.
    pub fn from_cycles(cycles: u64) -> (r: Self)
        ensures
            r.spec_cycles() == cycles,
    {
        Self(cycles)
    }

    /// The tick count as a plain integer.
    pub fn cycles(&self) -> (r: u64)
        ensures
            r == self.spec_cycles(),
    {
        self.0
    }

    /// Reads the cycle counter now.
    pub fn read() -> Self {
        let counter = read_cpu_counter();
        Self(counter)
    }

    /// Reads the cycle counter with serializing semantics. No serializing
    /// read exists yet, so this fails closed rather than returning a
    /// silently wrong value.
    pub fn read_serializing() -> (r: Result<Self, ProfileError>)
        ensures
            r == Result::<Self, ProfileError>::Err(ProfileError::NotImplemented),
    {
        Err(ProfileError::NotImplemented)
    }
}

} // verus!
