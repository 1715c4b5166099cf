//! Design rules: the conditions under which a set of rules applies.

use vstd::prelude::*;

verus! {

/// The conditions under which a ruleset applies: between two nets, on a layer,
/// in a zone. A condition that is `None` holds everywhere.
#[derive(Debug, Clone, Copy, Hash, PartialEq, Eq, Structural)]
pub struct Conditions {
    pub lower_net: Option<i32>,
    pub higher_net: Option<i32>,
    pub layer: Option<i32>,
    pub zone: Option<i32>,
}

impl Conditions {
    /// The priority of a ruleset under these conditions: each condition that is set
    /// adds its own power of two, so that more specific conditions come first.
    pub open spec fn spec_priority(&self) -> int {
        (if self.lower_net is Some { 1int } else { 0int })
            + (if self.higher_net is Some { 2int } else { 0int })
            + (if self.layer is Some { 4int } else { 0int })
            + (if self.zone is Some { 8int } else { 0int })
    }

    pub fn priority(&self) -> (r: i32)
        ensures
            r == self.spec_priority(),
            0 <= r < 16,
    {
        let mut priority: i32 = 0;
        if self.lower_net.is_some() {
            priority += 1;
        }
        if self.higher_net.is_some() {
            priority += 2;
        }
        if self.layer.is_some() {
            priority += 4;
        }
        if self.zone.is_some() {
            priority += 8;
        }
        priority
    }
}

/// Two conditions that set the same parts have the same priority, and setting one
/// more part raises it.
pub proof fn lemma_priority_counts_set_parts(a: Conditions, b: Conditions)
    requires
        a.lower_net is Some ==> b.lower_net is Some,
        a.higher_net is Some ==> b.higher_net is Some,
        a.layer is Some ==> b.layer is Some,
        a.zone is Some ==> b.zone is Some,
    ensures
        a.spec_priority() <= b.spec_priority(),
        a.spec_priority() == b.spec_priority() ==> {
            &&& (a.lower_net is Some <==> b.lower_net is Some)
            &&& (a.higher_net is Some <==> b.higher_net is Some)
            &&& (a.layer is Some <==> b.layer is Some)
            &&& (a.zone is Some <==> b.zone is Some)
        },
{
}

} // verus!
