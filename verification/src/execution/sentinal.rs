//! The flag by which execution is interrupted from outside.

use vstd::prelude::*;

verus! {

/// Whether a stop of execution was asked for.
#[derive(Debug)]
pub struct ExecutionSentinal {
    stop_requested: bool,
}

impl ExecutionSentinal {
    /// Whether a stop was asked for.
    pub closed spec fn requested(&self) -> bool {
        self.stop_requested
    }

    pub fn clear_stop_requested(&mut self)
        ensures
            !final(self).requested(),
    {
        self.stop_requested = false;
    }

    pub fn is_stop_requested(&self) -> (r: bool)
        ensures
            r == self.requested(),
    {
        self.stop_requested
    }

    pub fn new() -> (r: ExecutionSentinal)
        ensures
            !r.requested(),
    {
        ExecutionSentinal { stop_requested: false }
    }

    /// Asks for a stop, or takes the asking back.
    pub fn set_stop_requested(&mut self, value: bool)
        ensures
            final(self).requested() == value,
    {
        self.stop_requested = value;
    }
}

} // verus!
