//! Metric kinds and typed metric values.

pub mod counter;
pub mod freq;
pub mod time;

pub use counter::Counter;
pub use freq::Frequency;
pub use time::{Duration, Instant, TimeUnit};

use vstd::prelude::*;

verus! {

/// The metric source a session samples: the OS monotonic clock, the hardware
/// cycle counter, or a serializing cycle counter read (not yet implemented).
#[derive(Debug, Clone, Copy, PartialEq, Eq, Structural)]
pub enum MetricType {
    OsClock,
    CpuCounter,
    CpuCounterSerialized,
}

impl MetricType {
    /// A metric type that a session can actually sample today.
    pub open spec fn is_supported(self) -> bool {
        self == MetricType::OsClock || self == MetricType::CpuCounter
    }
}

/// One measured value, typed by the metric source that produced it.
#[derive(Debug, Clone, Copy, PartialEq, Eq, Structural)]
pub enum ProfileMetric {
    OsClock(Duration),
    CpuCounter(Counter),
}

impl ProfileMetric {
    /// The raw tick value carried by the metric.
    pub open spec fn spec_raw(self) -> u64 {
        match self {
            ProfileMetric::OsClock(d) => d.spec_nanos(),
            ProfileMetric::CpuCounter(c) => c.spec_cycles(),
        }
    }

    /// Returns the raw tick value carried by the metric.
    pub fn raw(self) -> (r: u64)
        ensures
            r == self.spec_raw(),
    {
        match self {
            ProfileMetric::OsClock(d) => d.as_nanos(),
            ProfileMetric::CpuCounter(c) => c.cycles(),
        }
    }
}

} // verus!
