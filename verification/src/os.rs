//! The OS clock metric source.

use vstd::prelude::*;

verus! {

/// Returns an OS managed low resolution timer in nanoseconds.
pub fn read_os_time() -> u64 {
    crate::clock::wall_clock_nanos()
}

} // verus!
