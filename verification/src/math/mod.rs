//! Planar geometry helpers that work on integers and indices.

use vstd::prelude::*;

mod cyclic_search;
pub use cyclic_search::{
    agrees, cbps_brute_force, cyclic_breadth_partition_search, deterministic, ends_run_or_absent,
    evaluable, in_cyclic_interval, is_cyclic_partition, lemma_partition_bounds_end_runs,
    partition_bounds, partition_witness,
};

verus! {

/// The direction in which to rotate around a point.
#[derive(Clone, Copy, Debug, PartialEq, Eq, Structural)]
pub enum RotationSense {
    Counterclockwise,
    Clockwise,
}

impl RotationSense {
    /// The opposite rotation sense.
    pub open spec fn opposite(self) -> RotationSense {
        match self {
            RotationSense::Counterclockwise => RotationSense::Clockwise,
            RotationSense::Clockwise => RotationSense::Counterclockwise,
        }
    }

    /// Where `step_ccw` lands: `pos` moved by `step` positions forward (counterclockwise)
    /// or backward (clockwise) on a cycle of `len` positions.
    pub open spec fn stepped(self, pos: int, len: int, step: int) -> int {
        match self {
            RotationSense::Counterclockwise => (pos + step % len) % len,
            RotationSense::Clockwise => (len + pos - step % len) % len,
        }
    }

    /// Move `pos` by `step` along `self` assuming the list of positions is ordered CCW.
    pub fn step_ccw(self, pos: usize, len: usize, step: usize) -> (r: usize)
        requires
            len > 0,
            self is Counterclockwise ==> pos + step % len <= usize::MAX,
            self is Clockwise ==> len + pos <= usize::MAX,
        ensures
            r == self.stepped(pos as int, len as int, step as int),
            r < len,
    {
        let step = step % len;
        (match self {
            RotationSense::Counterclockwise => pos + step,
            RotationSense::Clockwise => len + pos - step,
        }) % len
    }
}

/// Turning around twice gives back the rotation sense, and no sense is its own
/// opposite.
pub proof fn lemma_opposite_involution(sense: RotationSense)
    ensures
        sense.opposite().opposite() == sense,
        sense.opposite() != sense,
{
}

impl core::ops::Neg for RotationSense {
    type Output = Self;

    fn neg(self) -> (r: Self)
        ensures
            r == self.opposite(),
    {
        match self {
            RotationSense::Counterclockwise => RotationSense::Clockwise,
            RotationSense::Clockwise => RotationSense::Counterclockwise,
        }
    }
}

impl vstd::std_specs::ops::NegSpecImpl for RotationSense {
    open spec fn obeys_neg_spec() -> bool {
        true
    }

    open spec fn neg_req(self) -> bool {
        true
    }

    open spec fn neg_spec(self) -> RotationSense {
        self.opposite()
    }
}

} // verus!
