//! The cycle-counter metric source.
//!
//! On targets where the hardware cycle counter cannot be reached from safe
//! code, the counter metric is backed by the OS monotonic clock at nanosecond
//! resolution. A tick is then one nanosecond, so the counter's frequency is
//! exactly [`NANOS_PER_SEC`] ticks per second, on every machine and in every
//! process.

use vstd::prelude::*;

use crate::metrics::time::NANOS_PER_SEC;

verus! {

/// Returns the frequency of the CPU counter in ticks per second.
///
/// Ticks of the clock-backed counter are nanoseconds, so calibration always
/// yields the same value: [`NANOS_PER_SEC`].
pub fn read_cpu_counter_frequency() -> (r: u64)
    ensures
        r == NANOS_PER_SEC,
{
    NANOS_PER_SEC
}

/// Reads the CPU timer: a raw tick count, one tick per nanosecond.
pub fn read_cpu_counter() -> u64 {
    crate::clock::wall_clock_nanos()
}

/// Reports whether a counter source exists on this target. The clock-backed
/// counter is available wherever the standard library runs.
pub fn has_counter_support() -> (r: bool)
    ensures
        r,
{
    true
}

} // verus!
