//! The nested-block timing engine: session state, anchors, blocks, and the
//! ghost model its proofs are carried out over.

pub mod model;
pub mod profiler;

pub use profiler::{CallSite, ProfileAnchor, ProfileBlock, Profiler, PROFILER_SIZE};
