//! The planar incremental embedding router: the parts of its state that are plain
//! values.

use vstd::prelude::*;

verus! {

/// The navmesh base of the planar incremental embedding router.
#[derive(Clone, Copy, Debug)]
pub struct PieNavmeshBase;

/// Where a trace runs inside a navmesh edge, relative to the other traces on it.
#[derive(Clone, Copy, Debug, PartialEq, Eq, PartialOrd, Ord, Structural)]
pub enum Alignment {
    Left,
    Center,
    Right,
}

impl Alignment {
    /// The alignment seen from the other side of the edge.
    pub open spec fn mirrored(self) -> Alignment {
        match self {
            Alignment::Left => Alignment::Right,
            Alignment::Center => Alignment::Center,
            Alignment::Right => Alignment::Left,
        }
    }

    /// The alignment one step further to the right.
    pub open spec fn next(self) -> Alignment {
        match self {
            Alignment::Left => Alignment::Center,
            _ => Alignment::Right,
        }
    }

    /// Moves the alignment one step to the right. There is nothing to the right of
    /// `Right`.
    pub fn incr_inplace(&mut self)
        requires
            *old(self) != Alignment::Right,
        ensures
            *final(self) == old(self).next(),
    {
        *self = match *self {
            Alignment::Left => Alignment::Center,
            _ => Alignment::Right,
        };
    }
}

impl core::ops::Neg for Alignment {
    type Output = Self;

    fn neg(self) -> (r: Self)
        ensures
            r == self.mirrored(),
    {
        match self {
            Alignment::Left => Alignment::Right,
            Alignment::Center => Alignment::Center,
            Alignment::Right => Alignment::Left,
        }
    }
}

impl vstd::std_specs::ops::NegSpecImpl for Alignment {
    open spec fn obeys_neg_spec() -> bool {
        true
    }

    open spec fn neg_req(self) -> bool {
        true
    }

    open spec fn neg_spec(self) -> Alignment {
        self.mirrored()
    }
}

/// Mirroring twice gives back the alignment, and only `Center` is its own mirror.
pub proof fn lemma_mirrored_involution(a: Alignment)
    ensures
        a.mirrored().mirrored() == a,
        (a.mirrored() == a) <==> (a == Alignment::Center),
{
}

} // verus!
