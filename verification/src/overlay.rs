//! The selection that the user makes on top of the board.

use std::collections::HashSet;
use std::hash::Hash;
use vstd::prelude::*;
use vstd::std_specs::hash::obeys_key_model;

verus! {

/// `HashSet::remove`, which removes `node` from the set and tells whether it was there:
/// where the element type obeys the hashing model, the contract claims that the set
/// afterwards is the set before without `node`, and that the result is whether the set
/// before held it. Of other element types it claims nothing.
#[verifier::external_body]
fn remove_from_set<N: Eq + Hash>(set: &mut HashSet<N>, node: &N) -> (r: bool)
    ensures
        obeys_key_model::<N>() ==> {
            &&& final(set)@ == old(set)@.remove(*node)
            &&& r == old(set)@.contains(*node)
        },
{
    set.remove(node)
}

/// What the user has selected on the board, and the layer they work on. `N` is the
/// type of the board's nodes.
pub struct Overlay<N> {
    selection: HashSet<N>,
    active_layer: u64,
}

/// `selection` with `node` added if it was not in it, and taken out if it was.
pub open spec fn toggled<N>(selection: Set<N>, node: N) -> Set<N> {
    if selection.contains(node) {
        selection.remove(node)
    } else {
        selection.insert(node)
    }
}

impl<N: Eq + Hash + Copy> Overlay<N> {
    /// The selected nodes.
    pub closed spec fn spec_selection(&self) -> Set<N> {
        self.selection@
    }

    /// The layer the user works on.
    pub closed spec fn spec_active_layer(&self) -> u64 {
        self.active_layer
    }

    /// An overlay with nothing selected, on the first layer.
    pub fn new() -> (r: Self)
        ensures
            r.spec_selection() == Set::<N>::empty(),
            r.spec_active_layer() == 0,
    {
        Self { selection: HashSet::new(), active_layer: 0 }
    }

    /// Selects `node` if it was not selected, and unselects it if it was.
    pub fn toggle_selection(&mut self, node: N)
        requires
            obeys_key_model::<N>(),
        ensures
            final(self).spec_selection() == toggled(old(self).spec_selection(), node),
            final(self).spec_active_layer() == old(self).spec_active_layer(),
    {
        broadcast use vstd::std_specs::hash::group_hash_axioms;

        if !self.selection.insert(node) {
            remove_from_set(&mut self.selection, &node);
            assert(self.selection@ =~= old(self).selection@.remove(node));
        }
    }

    /// The selected nodes.
    pub fn selection(&self) -> (r: &HashSet<N>)
        ensures
            r@ == self.spec_selection(),
    {
        &self.selection
    }
}

/// Toggling a node twice gives back the selection, and toggling leaves every other
/// node as it was.
pub proof fn lemma_toggle_twice<N>(selection: Set<N>, node: N, other: N)
    ensures
        toggled(toggled(selection, node), node) == selection,
        other != node ==> (toggled(selection, node).contains(other) <==> selection.contains(
            other,
        )),
{
    assert(toggled(toggled(selection, node), node) =~= selection);
}

} // verus!
