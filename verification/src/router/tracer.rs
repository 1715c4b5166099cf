//! The tracer's progress.

use vstd::prelude::*;

use crate::step::IsFinished;

verus! {

/// Whether the tracer is still running.
#[derive(Clone, Copy, Debug, PartialEq, Eq, Structural)]
pub enum TracerStatus {
    Running,
    Finished,
}

impl IsFinished for TracerStatus {
    open spec fn spec_finished(&self) -> bool {
        *self == TracerStatus::Finished
    }

    fn finished(&self) -> (r: bool) {
        match self {
            TracerStatus::Finished => true,
            TracerStatus::Running => false,
        }
    }
}

} // verus!
