//! Steps that end in an outcome.

use vstd::prelude::*;

verus! {

/// A stepper whose steps give statuses, some of which convert into a final outcome.
pub trait Step<C, S, E, O> {
    fn step(&mut self, context: &mut C) -> Result<S, E>;
}

/// A stepper that can take a step back.
pub trait StepBack<C, S, E, O> {
    fn step_back(&mut self, context: &mut C) -> Result<S, E>;
}

/// A status that tells whether the work it reports on is done.
pub trait IsFinished {
    /// The work is done.
    spec fn spec_finished(&self) -> bool;

    fn finished(&self) -> (r: bool)
        ensures
            r == self.spec_finished(),
    ;
}

} // verus!
