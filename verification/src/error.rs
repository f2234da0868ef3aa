//! Usage errors the profiler reports.

use vstd::prelude::*;

verus! {

/// A programmer-usage or capability error. None of these is recoverable at
/// run time: each signals a misuse of the session state machine or a request
/// for a facility that does not exist yet.
#[derive(Debug, Clone, Copy, PartialEq, Eq, Structural)]
pub enum ProfileError {
    /// A report was requested before the session was started.
    NotStarted,
    /// A report was requested before the session was stopped.
    NotFinished,
    /// The requested metric facility is not implemented.
    NotImplemented,
}

impl ProfileError {
    /// A diagnostic that tells the conditions apart.
    pub fn message(&self) -> (r: &'static str)
        ensures
            *self == ProfileError::NotStarted ==> r@ == "Profiler not started"@,
            *self == ProfileError::NotFinished ==> r@ == "Profiler not finished"@,
            *self == ProfileError::NotImplemented ==> r@ == "Metric not implemented"@,
    {
        match self {
            ProfileError::NotStarted => "Profiler not started",
            ProfileError::NotFinished => "Profiler not finished",
            ProfileError::NotImplemented => "Metric not implemented",
        }
    }
}

} // verus!
