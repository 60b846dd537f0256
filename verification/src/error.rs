//! The failures a monitoring run can meet.

use vstd::prelude::*;

verus! {

/// What can go wrong during a run.
#[derive(Clone, Copy, Debug, PartialEq, Eq, Structural)]
pub enum MonitorError {
    /// The process table could not be read.
    SnapshotFailure,
    /// The display could not be set up or drawn to.
    RenderFailure,
    /// A sampled reading is not a finite, non-negative number of plausible size.
    InvalidMetric,
    /// Polling for input failed.
    InputPollFailure,
}

impl MonitorError {
    /// A fatal error ends the run; only a failed input poll is survivable.
    pub open spec fn fatal(self) -> bool {
        self != MonitorError::InputPollFailure
    }

    /// Whether the run must end on this error.
    pub fn is_fatal(&self) -> (fatal: bool)
        ensures
            fatal == self.fatal(),
    {
        match self {
            MonitorError::InputPollFailure => false,
            _ => true,
        }
    }

    /// The diagnostic line shown to the user for this error.
    pub open spec fn message_text(self) -> Seq<char> {
        match self {
            MonitorError::SnapshotFailure => "snapshot failure: the process table could not be read"@,
            MonitorError::RenderFailure => "render failure: the display could not be drawn to"@,
            MonitorError::InvalidMetric => "invalid metric: a sampled value is not orderable"@,
            MonitorError::InputPollFailure => "input poll failure: no input could be read"@,
        }
    }

    /// The diagnostic line for this error.
    pub fn message(&self) -> (text: String)
        ensures
            text@ == self.message_text(),
    {
        match self {
            MonitorError::SnapshotFailure => String::from_str(
                "snapshot failure: the process table could not be read",
            ),
            MonitorError::RenderFailure => String::from_str(
                "render failure: the display could not be drawn to",
            ),
            MonitorError::InvalidMetric => String::from_str(
                "invalid metric: a sampled value is not orderable",
            ),
            MonitorError::InputPollFailure => String::from_str(
                "input poll failure: no input could be read",
            ),
        }
    }
}

} // verus!
