//! An in-process instrumentation profiler.
//!
//! A program marks code regions by opening and closing profile blocks; the
//! profiler records how many times each region ran and how much time it
//! consumed, both including and excluding nested regions, and produces an
//! aggregated report.

pub mod arch;
mod clock;
pub mod error;
pub mod metrics;
pub mod os;
pub mod profile;
pub mod report;

pub use arch::{has_counter_support, read_cpu_counter, read_cpu_counter_frequency};
pub use error::ProfileError;
pub use metrics::{Counter, Duration, Frequency, Instant, MetricType, ProfileMetric, TimeUnit};
pub use os::read_os_time;
pub use profile::{CallSite, ProfileAnchor, ProfileBlock, Profiler, PROFILER_SIZE};
pub use report::{Column, Columns, Measurement, ProfileReport};
