//! The guard that keeps a walk over values from going round in circles.
//!
//! A walk that may come back to where it was takes a pass number. What it
//! visits it marks with that number, and what bears the number of the
//! pass has been visited.

use vstd::prelude::*;

verus! {

/// The number of the pass that is under way.
#[derive(Clone, Copy, Debug, PartialEq, Eq, Structural)]
pub struct PassCounter {
    pub pass: u32,
}

/// The mark of a value: the number of the pass that visited it last.
#[derive(Clone, Copy, Debug, PartialEq, Eq, Structural)]
pub struct Cycle {
    pub pass: u32,
}

impl PassCounter {
    /// The counter before any pass.
    pub fn new() -> (r: PassCounter)
        ensures
            r.pass == 1,
    {
        PassCounter { pass: 1 }
    }
}

impl Cycle {
    /// Whether the value has not been visited in the pass that is under
    /// way. The value is marked as visited.
    pub fn has_not_been_processed(&mut self, current: &PassCounter) -> (r: bool)
        ensures
            r == (old(self).pass != current.pass),
            final(self).pass == current.pass,
    {
        if self.pass != current.pass {
            self.pass = current.pass;
            true
        } else {
            false
        }
    }

    /// The mark of a value that no pass has visited.
    pub fn new(current: &PassCounter) -> (r: Cycle)
        ensures
            r.pass == current.pass.wrapping_sub(1),
            r.pass != current.pass,
    {
        Cycle { pass: current.pass.wrapping_sub(1) }
    }

    /// Starts a pass: no value bears its number, unless it was visited
    /// four thousand million passes ago and by none since.
    pub fn start(current: &mut PassCounter)
        ensures
            final(current).pass == old(current).pass.wrapping_add(1),
    {
        current.pass = current.pass.wrapping_add(1);
    }
}

} // verus!
