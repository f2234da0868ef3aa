//! Post-session aggregation: measurements, column statistics and export.

pub mod fmt;
pub mod rep;

pub use fmt::decimal_string;
pub use rep::{Column, Columns, Measurement, ProfileReport};
