//! The A* search, advanced one step at a time.

use core::cmp::Ordering;
use core::ops::ControlFlow;
use std::collections::{BTreeMap, VecDeque};
use vstd::prelude::*;

use crate::stepper::Step;

verus! {

/// A reference to an edge of a graph: its id and its two ends.
#[derive(Clone, Copy, Debug, PartialEq, Eq, Structural)]
pub struct EdgeReference {
    pub id: usize,
    pub source: usize,
    pub target: usize,
}

/// A graph whose nodes and edges are numbered, and whose edges can be looked up by
/// their ids.
pub trait MakeEdgeRef {
    /// The ids of the edges leaving `node`, in the order the graph lists them.
    spec fn spec_edge_ids(&self, node: usize) -> Seq<usize>;

    /// `edge_id` names an edge of the graph.
    spec fn spec_has_edge(&self, edge_id: usize) -> bool;

    /// The node an edge starts at.
    spec fn spec_edge_source(&self, edge_id: usize) -> usize;

    /// The node an edge leads to.
    spec fn spec_edge_target(&self, edge_id: usize) -> usize;

    /// Every id listed for a node names an edge that starts at that node.
    proof fn lemma_edge_ids_valid(&self, node: usize)
        ensures
            forall|i: int|
                0 <= i < self.spec_edge_ids(node).len() ==> {
                    &&& self.spec_has_edge(#[trigger] self.spec_edge_ids(node)[i])
                    &&& self.spec_edge_source(self.spec_edge_ids(node)[i]) == node
                },
    ;

    /// The ids of the edges leaving `node`.
    fn edge_ids(&self, node: usize) -> (ids: Vec<usize>)
        ensures
            ids@ == self.spec_edge_ids(node),
    ;

    /// The reference to the edge `edge_id`.
    fn edge_ref(&self, edge_id: usize) -> (edge: EdgeReference)
        requires
            self.spec_has_edge(edge_id),
        ensures
            edge.id == edge_id,
            edge.source == self.spec_edge_source(edge_id),
            edge.target == self.spec_edge_target(edge_id),
    ;
}

/// The ids of the edges among `edges[0..k]` that leave `node`, in order.
pub open spec fn out_edge_ids(edges: Seq<(usize, usize)>, node: usize, k: nat) -> Seq<usize>
    decreases k,
{
    if k == 0 {
        Seq::empty()
    } else {
        let prefix = out_edge_ids(edges, node, (k - 1) as nat);
        if edges[k - 1].0 == node && k - 1 <= usize::MAX {
            prefix.push((k - 1) as usize)
        } else {
            prefix
        }
    }
}

proof fn lemma_out_edge_ids(edges: Seq<(usize, usize)>, node: usize, k: nat)
    requires
        k <= edges.len(),
    ensures
        forall|i: int|
            0 <= i < out_edge_ids(edges, node, k).len() ==> {
                &&& #[trigger] out_edge_ids(edges, node, k)[i] < k
                &&& edges[out_edge_ids(edges, node, k)[i] as int].0 == node
            },
    decreases k,
{
    if k > 0 {
        let prefix = out_edge_ids(edges, node, (k - 1) as nat);
        lemma_out_edge_ids(edges, node, (k - 1) as nat);
        assert forall|i: int| 0 <= i < out_edge_ids(edges, node, k).len() implies {
            &&& #[trigger] out_edge_ids(edges, node, k)[i] < k
            &&& edges[out_edge_ids(edges, node, k)[i] as int].0 == node
        } by {
            if edges[k - 1].0 == node && k - 1 <= usize::MAX {
                assert(out_edge_ids(edges, node, k) == prefix.push((k - 1) as usize));
            } else {
                assert(out_edge_ids(edges, node, k) == prefix);
            }
            if i < prefix.len() {
                assert(out_edge_ids(edges, node, k)[i] == prefix[i]);
                assert(prefix[i] < k - 1);
            }
        }
    }
}

proof fn lemma_out_edge_ids_exact(edges: Seq<(usize, usize)>, node: usize, k: nat)
    requires
        k <= edges.len(),
        edges.len() <= usize::MAX,
    ensures
        forall|i: int|
            0 <= i < k && edges[i].0 == node ==> out_edge_ids(edges, node, k).contains(
                i as usize,
            ),
        forall|a: int|
            0 <= a < out_edge_ids(edges, node, k).len() ==> {
                &&& #[trigger] out_edge_ids(edges, node, k)[a] < k
                &&& edges[out_edge_ids(edges, node, k)[a] as int].0 == node
            },
        forall|a: int, b: int|
            0 <= a < b < out_edge_ids(edges, node, k).len() ==> #[trigger] out_edge_ids(
                edges,
                node,
                k,
            )[a] < #[trigger] out_edge_ids(edges, node, k)[b],
    decreases k,
{
    lemma_out_edge_ids(edges, node, k);
    if k > 0 {
        let prefix = out_edge_ids(edges, node, (k - 1) as nat);
        lemma_out_edge_ids_exact(edges, node, (k - 1) as nat);
        let ids = out_edge_ids(edges, node, k);
        if edges[k - 1].0 == node {
            assert(ids == prefix.push((k - 1) as usize));
            assert forall|i: int| 0 <= i < k && edges[i].0 == node implies ids.contains(
                i as usize,
            ) by {
                if i < k - 1 {
                    let j = choose|j: int| 0 <= j < prefix.len() && prefix[j] == i as usize;
                    assert(ids[j] == prefix[j]);
                } else {
                    assert(ids[prefix.len() as int] == (k - 1) as usize);
                }
            }
            assert forall|a: int, b: int| 0 <= a < b < ids.len() implies #[trigger] ids[a]
                < #[trigger] ids[b] by {
                if b < prefix.len() {
                    assert(ids[a] == prefix[a] && ids[b] == prefix[b]);
                } else {
                    assert(ids[a] == prefix[a]);
                    assert(prefix[a] < k - 1);
                }
            }
        } else {
            assert(ids == prefix);
        }
    }
}

/// The edges that an edge list lists for a node are exactly the edges that start at
/// that node, each once, in increasing order of id: every edge that starts at the node
/// is listed, and every listed edge starts there.
pub proof fn lemma_edge_list_ids_exact(graph: EdgeListGraph, node: usize)
    requires
        graph.edges@.len() <= usize::MAX,
    ensures
        forall|i: int|
            0 <= i < graph.edges@.len() && graph.edges@[i].0 == node ==> graph.spec_edge_ids(
                node,
            ).contains(i as usize),
        forall|a: int|
            0 <= a < graph.spec_edge_ids(node).len() ==> {
                &&& graph.spec_has_edge(#[trigger] graph.spec_edge_ids(node)[a])
                &&& graph.edges@[graph.spec_edge_ids(node)[a] as int].0 == node
            },
        forall|a: int, b: int|
            0 <= a < b < graph.spec_edge_ids(node).len() ==> #[trigger] graph.spec_edge_ids(
                node,
            )[a] < #[trigger] graph.spec_edge_ids(node)[b],
{
    lemma_out_edge_ids_exact(graph.edges@, node, graph.edges@.len());
}

/// A directed graph given by its list of edges: edge `i` leads from `edges[i].0`
/// to `edges[i].1`.
pub struct EdgeListGraph {
    pub edges: Vec<(usize, usize)>,
}

impl MakeEdgeRef for EdgeListGraph {
    open spec fn spec_edge_ids(&self, node: usize) -> Seq<usize> {
        out_edge_ids(self.edges@, node, self.edges@.len())
    }

    open spec fn spec_has_edge(&self, edge_id: usize) -> bool {
        edge_id < self.edges@.len()
    }

    open spec fn spec_edge_source(&self, edge_id: usize) -> usize {
        self.edges@[edge_id as int].0
    }

    open spec fn spec_edge_target(&self, edge_id: usize) -> usize {
        self.edges@[edge_id as int].1
    }

    proof fn lemma_edge_ids_valid(&self, node: usize) {
        lemma_out_edge_ids(self.edges@, node, self.edges@.len());
    }

    fn edge_ids(&self, node: usize) -> (ids: Vec<usize>) {
        let mut ids: Vec<usize> = Vec::new();
        let mut i: usize = 0;
        while i < self.edges.len()
            invariant
                i <= self.edges@.len(),
                ids@ == out_edge_ids(self.edges@, node, i as nat),
            decreases self.edges@.len() - i,
        {
            if self.edges[i].0 == node {
                ids.push(i);
            }
            i += 1;
        }
        ids
    }

    fn edge_ref(&self, edge_id: usize) -> (edge: EdgeReference) {
        EdgeReference { id: edge_id, source: self.edges[edge_id].0, target: self.edges[edge_id].1 }
    }
}

/// An item of the A* frontier, ordered so that the lower its score, the greater it is.
#[derive(Copy, Clone, Debug)]
pub struct MinScored<K, T>(pub K, pub T);

impl<T> MinScored<u64, T> {
    /// Compare two frontier items: the one with the lower score is the greater.
    pub fn cmp(&self, other: &MinScored<u64, T>) -> (r: Ordering)
        ensures
            r == (if self.0 == other.0 {
                Ordering::Equal
            } else if self.0 < other.0 {
                Ordering::Greater
            } else {
                Ordering::Less
            }),
    {
        let a = self.0;
        let b = other.0;
        if a == b {
            Ordering::Equal
        } else if a < b {
            Ordering::Greater
        } else {
            Ordering::Less
        }
    }
}

/// `a` comes strictly before `b` in the lexicographic order.
pub open spec fn lex_lt(a: (nat, nat), b: (nat, nat)) -> bool {
    a.0 < b.0 || (a.0 == b.0 && a.1 < b.1)
}

/// `path` leads along predecessor links from a node without predecessor to `last`.
pub open spec fn is_path_to(predecessors: Map<usize, usize>, path: Seq<usize>, last: usize) -> bool {
    &&& path.len() >= 1
    &&& path.last() == last
    &&& !predecessors.contains_key(path[0])
    &&& forall|i: int|
        1 <= i < path.len() ==> predecessors.contains_key(#[trigger] path[i])
            && predecessors[path[i]] == path[i - 1]
}

/// The predecessor of each reached node on the best path found to it.
pub struct PathTracker {
    came_from: BTreeMap<usize, usize>,
    /// A rank for each node that strictly grows along predecessor links, so that
    /// following the links always ends.
    rank: Ghost<Map<usize, (nat, nat)>>,
}

impl PathTracker {
    /// The predecessor links.
    pub closed spec fn predecessors(&self) -> Map<usize, usize> {
        self.came_from@
    }

    pub closed spec fn ranks(&self) -> Map<usize, (nat, nat)> {
        self.rank@
    }

    /// Following predecessor links strictly lowers the rank, so no link is on a cycle.
    pub open spec fn wf(&self) -> bool {
        forall|n: usize|
            #[trigger] self.predecessors().contains_key(n) ==> {
                &&& self.ranks().contains_key(n)
                &&& self.ranks().contains_key(self.predecessors()[n])
                &&& lex_lt(self.ranks()[self.predecessors()[n]], self.ranks()[n])
            }
    }

    pub(crate) fn new() -> (r: PathTracker)
        ensures
            r.predecessors() == Map::<usize, usize>::empty(),
            r.ranks() == Map::<usize, (nat, nat)>::empty(),
            r.wf(),
    {
        PathTracker { came_from: BTreeMap::new(), rank: Ghost(Map::empty()) }
    }

    pub(crate) fn set_rank(&mut self, node: usize, Ghost(r): Ghost<(nat, nat)>)
        requires
            old(self).wf(),
            !old(self).predecessors().contains_key(node),
            forall|m: usize|
                old(self).predecessors().contains_key(m) && old(self).predecessors()[m] == node
                    ==> lex_lt(r, old(self).ranks()[m]),
        ensures
            final(self).wf(),
            final(self).predecessors() == old(self).predecessors(),
            final(self).ranks() == old(self).ranks().insert(node, r),
    {
        self.rank = Ghost(self.rank@.insert(node, r));
    }

    pub(crate) fn set_predecessor(&mut self, node: usize, previous: usize, Ghost(r): Ghost<(nat, nat)>)
        requires
            old(self).wf(),
            node != previous,
            old(self).ranks().contains_key(previous),
            lex_lt(old(self).ranks()[previous], r),
            forall|m: usize|
                old(self).predecessors().contains_key(m) && old(self).predecessors()[m] == node
                    ==> lex_lt(r, old(self).ranks()[m]),
        ensures
            final(self).wf(),
            final(self).predecessors() == old(self).predecessors().insert(node, previous),
            final(self).ranks() == old(self).ranks().insert(node, r),
    {
        let ghost old_tracker = *self;
        self.came_from.insert(node, previous);
        self.rank = Ghost(self.rank@.insert(node, r));
        assert forall|n: usize| #[trigger] self.predecessors().contains_key(n) implies {
            &&& self.ranks().contains_key(n)
            &&& self.ranks().contains_key(self.predecessors()[n])
            &&& lex_lt(self.ranks()[self.predecessors()[n]], self.ranks()[n])
        } by {
            if n != node {
                assert(old_tracker.predecessors().contains_key(n));
            }
        }
    }

    /// The predecessor of `node`, if it has one.
    pub(crate) fn predecessor(&self, node: usize) -> (r: Option<usize>)
        ensures
            r is None ==> !self.predecessors().contains_key(node),
            r matches Some(p) ==> self.predecessors().contains_key(node)
                && self.predecessors()[node] == p,
    {
        match self.came_from.get(&node) {
            Some(p) => Some(*p),
            None => None,
        }
    }

    /// The path along predecessor links that ends at `last`.
    pub fn reconstruct_path_to(&self, last: usize) -> (path: Vec<usize>)
        requires
            self.wf(),
        ensures
            is_path_to(self.predecessors(), path@, last),
    {
        let mut backwards = vec![last];
        let mut current = last;
        loop
            invariant
                self.wf(),
                backwards@.len() >= 1,
                backwards@[0] == last,
                backwards@.last() == current,
                forall|i: int|
                    0 <= i < backwards@.len() - 1 ==> self.predecessors().contains_key(
                        #[trigger] backwards@[i],
                    ) && self.predecessors()[backwards@[i]] == backwards@[i + 1],
        ensures
            backwards@.len() >= 1,
            backwards@[0] == last,
            backwards@.last() == current,
            !self.predecessors().contains_key(current),
            forall|i: int|
                0 <= i < backwards@.len() - 1 ==> self.predecessors().contains_key(
                    #[trigger] backwards@[i],
                ) && self.predecessors()[backwards@[i]] == backwards@[i + 1],
            decreases self.ranks()[current].0, self.ranks()[current].1,
        {
            match self.came_from.get(&current) {
                Some(previous) => {
                    let previous = *previous;
                    assert(self.predecessors().contains_key(current));
                    assert(self.predecessors()[current] == previous);
                    assert(lex_lt(self.ranks()[previous], self.ranks()[current]));
                    backwards.push(previous);
                    current = previous;
                },
                None => {
                    break;
                },
            }
        }
        let mut path: Vec<usize> = Vec::new();
        let mut k = backwards.len();
        while k > 0
            invariant
                k <= backwards@.len(),
                path@.len() == backwards@.len() - k,
                forall|i: int| 0 <= i < path@.len() ==> path@[i] == backwards@[backwards@.len() - 1 - i],
            decreases k,
        {
            k -= 1;
            path.push(backwards[k]);
        }
        assert forall|i: int| 1 <= i < path@.len() implies self.predecessors().contains_key(
            #[trigger] path@[i],
        ) && self.predecessors()[path@[i]] == path@[i - 1] by {
            let j = backwards@.len() - 1 - i;
            assert(path@[i] == backwards@[j]);
            assert(path@[i - 1] == backwards@[j + 1]);
        }
        path
    }
}

/// The decisions a user of [`AstarStepper`] supplies: what visiting a node gives, what
/// an edge costs, and how far a node is estimated to be from the goal.
///
/// Each answer, and the strategy after the call, are named as functions of the
/// strategy before the call and of the call's arguments.
pub trait AstarStrategy<G: MakeEdgeRef, R>: Sized {
    /// What `visit_navnode` answers for `node`, and the strategy after the call.
    spec fn spec_visit_navnode(&self, graph: G, node: usize, tracker: PathTracker) -> (
        Result<Option<R>, ()>,
        Self,
    );

    /// What `place_probe_at_navedge` answers for `edge` (the cost of the edge, if a
    /// probe could be placed on it), and the strategy after the call.
    spec fn spec_place_probe_at_navedge(&self, graph: G, edge: EdgeReference) -> (
        Option<u64>,
        Self,
    );

    /// The strategy after `remove_probe`.
    spec fn spec_remove_probe(&self, graph: G) -> Self;

    /// What `estimate_cost` answers for `node`, and the strategy after the call.
    spec fn spec_estimate_cost(&self, graph: G, node: usize) -> (u64, Self);

    fn visit_navnode(&mut self, graph: &G, node: usize, tracker: &PathTracker) -> (r: Result<
        Option<R>,
        (),
    >)
        ensures
            (r, *final(self)) == old(self).spec_visit_navnode(*graph, node, *tracker),
    ;

    fn place_probe_at_navedge(&mut self, graph: &G, edge: EdgeReference) -> (r: Option<u64>)
        ensures
            (r, *final(self)) == old(self).spec_place_probe_at_navedge(*graph, edge),
    ;

    fn remove_probe(&mut self, graph: &G)
        ensures
            *final(self) == old(self).spec_remove_probe(*graph),
    ;

    fn estimate_cost(&mut self, graph: &G, node: usize) -> (r: u64)
        ensures
            (r, *final(self)) == old(self).spec_estimate_cost(*graph, node),
    ;
}

/// The status enum of the A* stepper returned when there is no failure or
/// break.
///
/// Note that, when thinking of the A* stepper as of a state machine, the
/// variants of the status actually correspond to state transitions, not to
/// states themselves, since `Probing` and `ProbingButDiscarded`, and likewise
/// `VisitSkipped` and `Visited`, would correspond to the same state.
#[derive(Debug, Clone, Copy, PartialEq, Eq, Structural)]
pub enum AstarContinueStatus {
    /// A* has now placed a probe to measure the cost of the edge to a
    /// neighboring navnode from the current position. The probed navnode has
    /// been added to the priority queue, and the newly measured edge cost has
    /// been stored in a map.
    Probing,
    /// A* has now placed a probe, but it turned out that the probed navnode has
    /// been previously reached through a path with equal or lower score, so the
    /// probe's measurement has been discarded. The probe, however, will be only
    /// removed in the next state just as if it was after the normal `Probing`
    /// status.
    ProbingButDiscarded,
    /// The probe that had been placed in the previous state has now been
    /// removed.
    Probed,
    /// A* has now attempted to visit a new navnode, but it turned out that
    /// it has been previously reached through a path with an equal or lower
    /// estimated score, so the visit to that navnode has been skipped.
    VisitSkipped,
    /// A* has failed to visit a new navnode. Happens, so A* will just proceed
    /// to the next node in the priority queue.
    VisitFailed,
    /// A* has now visited a new navnode.
    Visited,
}

#[derive(Debug, Clone, Copy, PartialEq, Eq, Structural)]
pub enum AstarError {
    /// A* search found no path.
    NotFound,
}

/// `item` is an item of `before` with the lowest score, and `after` is `before` without it.
pub open spec fn popped_min(
    before: Seq<MinScored<u64, usize>>,
    after: Seq<MinScored<u64, usize>>,
    item: MinScored<u64, usize>,
) -> bool {
    exists|i: int|
        #![trigger before[i]]
        0 <= i < before.len() && before[i] == item && after == before.remove(i) && forall|j: int|
            0 <= j < before.len() ==> item.0 <= #[trigger] before[j].0
}

/// Take an item with the lowest score out of the frontier.
pub(crate) fn pop_min(frontier: &mut Vec<MinScored<u64, usize>>) -> (r: Option<MinScored<u64, usize>>)
    ensures
        r is None ==> old(frontier)@.len() == 0 && final(frontier)@ == old(frontier)@,
        r matches Some(item) ==> popped_min(old(frontier)@, final(frontier)@, item),
{
    if frontier.len() == 0 {
        return None;
    }
    let mut best: usize = 0;
    let mut i: usize = 1;
    while i < frontier.len()
        invariant
            best < i <= frontier@.len(),
            forall|j: int| 0 <= j < i ==> frontier@[best as int].0 <= #[trigger] frontier@[j].0,
        decreases frontier@.len() - i,
    {
        if frontier[i].0 < frontier[best].0 {
            best = i;
        }
        i += 1;
    }
    let ghost before = frontier@;
    let item = frontier.remove(best);
    assert(before[best as int] == item);
    Some(item)
}

/// The graph has an edge from `a` to `b`.
pub open spec fn has_edge_between<G: MakeEdgeRef>(graph: G, a: usize, b: usize) -> bool {
    exists|e: usize|
        #[trigger] graph.spec_has_edge(e) && graph.spec_edge_source(e) == a
            && graph.spec_edge_target(e) == b
}

/// The reference to the edge `id` of `graph`.
pub open spec fn spec_edge_ref<G: MakeEdgeRef>(graph: G, id: usize) -> EdgeReference {
    EdgeReference { id, source: graph.spec_edge_source(id), target: graph.spec_edge_target(id) }
}

/// The A* search over a graph, advanced one step at a time.
pub struct AstarStepper<G> {
    graph: G,
    /// The priority queue of the nodes to visit.
    visit_next: Vec<MinScored<u64, usize>>,
    /// Also known as the g-scores, or just g.
    scores: BTreeMap<usize, u64>,
    /// Also known as the f-scores, or just f.
    estimate_scores: BTreeMap<usize, u64>,
    path_tracker: PathTracker,
    maybe_curr_node: Option<usize>,
    edge_ids: VecDeque<usize>,
    is_probing: bool,
    /// How many predecessor links were set so far.
    stamp: Ghost<nat>,
    /// Where the search started.
    start: Ghost<usize>,
}

impl<G: MakeEdgeRef> AstarStepper<G> {
    /// The node the search started at.
    pub closed spec fn spec_start(&self) -> usize {
        self.start@
    }

    pub closed spec fn spec_graph(&self) -> G {
        self.graph
    }

    /// The frontier: the nodes yet to visit, each with its estimated score.
    pub closed spec fn spec_visit_next(&self) -> Seq<MinScored<u64, usize>> {
        self.visit_next@
    }

    /// The cost of the best path found to each reached node.
    pub closed spec fn spec_scores(&self) -> Map<usize, u64> {
        self.scores@
    }

    /// The estimated total cost with which each visited node was visited.
    pub closed spec fn spec_estimate_scores(&self) -> Map<usize, u64> {
        self.estimate_scores@
    }

    /// The predecessor of each reached node on the best path found to it.
    pub closed spec fn spec_predecessors(&self) -> Map<usize, usize> {
        self.path_tracker.predecessors()
    }

    /// The node whose edges are being probed.
    pub closed spec fn spec_curr(&self) -> Option<usize> {
        self.maybe_curr_node
    }

    /// The edges of the current node that are yet to be probed.
    pub closed spec fn spec_edge_ids(&self) -> Seq<usize> {
        self.edge_ids@
    }

    /// A probe is in place and will be removed on the next step.
    pub closed spec fn spec_is_probing(&self) -> bool {
        self.is_probing
    }

    /// The state that every step keeps.
    pub closed spec fn wf(&self) -> bool {
        &&& self.path_tracker.wf()
        &&& self.path_tracker.ranks().dom() == self.scores@.dom()
        &&& forall|n: usize| #[trigger]
            self.scores@.contains_key(n) ==> self.path_tracker.ranks()[n].0 == self.scores@[n]
                && self.path_tracker.ranks()[n].1 <= self.stamp@
        &&& forall|i: int|
            0 <= i < self.visit_next@.len() ==> self.scores@.contains_key(
                #[trigger] self.visit_next@[i].1,
            )
        &&& self.maybe_curr_node matches Some(c) ==> self.scores@.contains_key(c)
        &&& self.maybe_curr_node is None ==> self.edge_ids@.len() == 0 && !self.is_probing
        &&& self.scores@.contains_key(self.start@)
        &&& self.scores@[self.start@] == 0
        &&& !self.path_tracker.predecessors().contains_key(self.start@)
        &&& forall|n: usize|
            #[trigger] self.scores@.contains_key(n) ==> n == self.start@
                || self.path_tracker.predecessors().contains_key(n)
        &&& forall|i: int|
            0 <= i < self.edge_ids@.len() ==> self.graph.spec_has_edge(#[trigger] self.edge_ids@[i])
        &&& self.maybe_curr_node matches Some(c) ==> forall|i: int|
            0 <= i < self.edge_ids@.len() ==> self.graph.spec_edge_source(
                #[trigger] self.edge_ids@[i],
            ) == c
        &&& forall|n: usize| #[trigger]
            self.path_tracker.predecessors().contains_key(n) ==> has_edge_between(
                self.graph,
                self.path_tracker.predecessors()[n],
                n,
            )
    }

    /// The predecessor links, with the ranks that order them.
    pub closed spec fn spec_tracker(&self) -> PathTracker {
        self.path_tracker
    }

    /// Start a search at `start`.
    pub fn new<R, S: AstarStrategy<G, R>>(graph: G, start: usize, strategy: &mut S) -> (r: Self)
        ensures
            r.wf(),
            r.spec_graph() == graph,
            r.spec_scores() == map![start => 0u64],
            r.spec_estimate_scores() == Map::<usize, u64>::empty(),
            r.spec_predecessors() == Map::<usize, usize>::empty(),
            r.spec_curr() is None,
            r.spec_visit_next() == seq![
                MinScored(old(strategy).spec_estimate_cost(graph, start).0, start),
            ],
            *final(strategy) == old(strategy).spec_estimate_cost(graph, start).1,
            r.spec_start() == start,
    {
        let mut this = Self {
            graph,
            visit_next: Vec::new(),
            scores: BTreeMap::new(),
            estimate_scores: BTreeMap::new(),
            path_tracker: PathTracker::new(),
            maybe_curr_node: None,
            edge_ids: VecDeque::new(),
            is_probing: false,
            stamp: Ghost(0),
            start: Ghost(start),
        };
        let zero_score: u64 = 0;
        this.scores.insert(start, zero_score);
        this.path_tracker.set_rank(start, Ghost((0, 0)));
        let estimate = strategy.estimate_cost(&this.graph, start);
        this.visit_next.push(MinScored(estimate, start));
        assert(this.scores@ =~= map![start => 0u64]);
        assert(this.visit_next@ =~= seq![MinScored(estimate, start)]);
        this
    }

    pub fn graph(&self) -> (r: &G)
        ensures
            *r == self.spec_graph(),
    {
        &self.graph
    }

    pub fn scores(&self) -> (r: &BTreeMap<usize, u64>)
        ensures
            r@ == self.spec_scores(),
    {
        &self.scores
    }

    pub fn estimate_scores(&self) -> (r: &BTreeMap<usize, u64>)
        ensures
            r@ == self.spec_estimate_scores(),
    {
        &self.estimate_scores
    }
}

/// Probing the first edge left to the current node of `s` with edge cost `cost`, and
/// estimating the cost from its target to the goal as `estimate`, gives `t`.
pub open spec fn astar_probe_outcome<G: MakeEdgeRef>(
    s: AstarStepper<G>,
    t: AstarStepper<G>,
    cost: u64,
    estimate: u64,
) -> bool {
    let c = s.spec_curr()->0;
    let next = s.spec_graph().spec_edge_target(s.spec_edge_ids()[0]);
    let next_score = s.spec_scores()[c].saturating_add(cost);
    &&& !s.spec_scores().contains_key(next) || s.spec_scores()[next] > next_score
    &&& t.spec_scores() == s.spec_scores().insert(next, next_score)
    &&& t.spec_predecessors() == s.spec_predecessors().insert(next, c)
    &&& t.spec_visit_next() == s.spec_visit_next().push(
        MinScored(next_score.saturating_add(estimate), next),
    )
}

/// The strategy as the first call of a step finds it: with the probe of the step
/// before removed, if one is in place.
pub open spec fn astar_before_calls<G: MakeEdgeRef, R, S: AstarStrategy<G, R>>(
    s: AstarStepper<G>,
    strategy: S,
) -> S {
    if s.spec_curr() is Some && s.spec_is_probing() {
        strategy.spec_remove_probe(s.spec_graph())
    } else {
        strategy
    }
}

/// What visiting `node`, taken from the frontier with estimated score
/// `estimate_score`, gives when the strategy answers `answer`: `s` is the stepper
/// before, `t` after, and `r` what is returned.
pub open spec fn astar_visit_taken<G: MakeEdgeRef, R>(
    s: AstarStepper<G>,
    t: AstarStepper<G>,
    r: Result<ControlFlow<(u64, Vec<usize>, R), AstarContinueStatus>, AstarError>,
    node: usize,
    estimate_score: u64,
    answer: Result<Option<R>, ()>,
) -> bool {
    match answer {
        Err(()) => {
            &&& r matches Ok(ControlFlow::Continue(AstarContinueStatus::VisitFailed))
            &&& t.spec_estimate_scores() == s.spec_estimate_scores()
            &&& t.spec_curr() is None
        },
        Ok(Some(x)) => {
            &&& r matches Ok(ControlFlow::Break((cost, path, y))) && y == x && cost
                == s.spec_scores()[node] && is_path_to(s.spec_predecessors(), path@, node)
            &&& t.spec_estimate_scores() == s.spec_estimate_scores()
            &&& t.spec_curr() is None
        },
        Ok(None) => if s.spec_estimate_scores().contains_key(node)
            && s.spec_estimate_scores()[node] <= estimate_score {
            &&& r matches Ok(ControlFlow::Continue(AstarContinueStatus::VisitSkipped))
            &&& t.spec_estimate_scores() == s.spec_estimate_scores()
            &&& t.spec_curr() is None
        } else {
            &&& r matches Ok(ControlFlow::Continue(AstarContinueStatus::Visited))
            &&& t.spec_estimate_scores() == s.spec_estimate_scores().insert(node, estimate_score)
            &&& t.spec_curr() == Some(node)
            &&& t.spec_edge_ids() == s.spec_graph().spec_edge_ids(node)
        },
    }
}

/// What one step of the A* stepper does: `s` is the stepper before the step, `t` after
/// it, `r` what the step returned, and `before` and `after` the strategy before and
/// after the step. Each answer of the strategy is the one it gives to the arguments
/// that the step hands it.
pub open spec fn astar_step_done<G: MakeEdgeRef, R, S: AstarStrategy<G, R>>(
    s: AstarStepper<G>,
    t: AstarStepper<G>,
    r: Result<ControlFlow<(u64, Vec<usize>, R), AstarContinueStatus>, AstarError>,
    before: S,
    after: S,
) -> bool {
    let graph = s.spec_graph();
    let st1 = astar_before_calls(s, before);
    if s.spec_curr() is Some && s.spec_edge_ids().len() > 0 {
        // Probe the next edge of the current node.
        let c = s.spec_curr()->0;
        let edge = spec_edge_ref(graph, s.spec_edge_ids()[0]);
        let probed = st1.spec_place_probe_at_navedge(graph, edge);
        &&& t.spec_curr() == s.spec_curr()
        &&& t.spec_edge_ids() == s.spec_edge_ids().drop_first()
        &&& t.spec_estimate_scores() == s.spec_estimate_scores()
        &&& match probed.0 {
            None => {
                &&& r matches Ok(ControlFlow::Continue(AstarContinueStatus::Probed))
                &&& after == probed.1
                &&& t.spec_visit_next() == s.spec_visit_next()
                &&& t.spec_scores() == s.spec_scores()
                &&& t.spec_predecessors() == s.spec_predecessors()
                &&& !t.spec_is_probing()
            },
            Some(cost) => {
                let next_score = s.spec_scores()[c].saturating_add(cost);
                if s.spec_scores().contains_key(edge.target) && s.spec_scores()[edge.target]
                    <= next_score {
                    &&& r matches Ok(ControlFlow::Continue(AstarContinueStatus::ProbingButDiscarded))
                    &&& after == probed.1
                    &&& t.spec_visit_next() == s.spec_visit_next()
                    &&& t.spec_scores() == s.spec_scores()
                    &&& t.spec_predecessors() == s.spec_predecessors()
                    &&& t.spec_is_probing()
                } else {
                    let estimated = probed.1.spec_estimate_cost(graph, edge.target);
                    &&& r matches Ok(ControlFlow::Continue(AstarContinueStatus::Probing))
                    &&& after == estimated.1
                    &&& astar_probe_outcome(s, t, cost, estimated.0)
                    &&& t.spec_is_probing()
                }
            },
        }
    } else {
        // Visit the node with the lowest estimated score.
        &&& !t.spec_is_probing()
        &&& t.spec_scores() == s.spec_scores()
        &&& t.spec_predecessors() == s.spec_predecessors()
        &&& if s.spec_visit_next().len() == 0 {
            &&& r matches Err(AstarError::NotFound)
            &&& after == st1
            &&& t.spec_visit_next() == s.spec_visit_next()
            &&& t.spec_estimate_scores() == s.spec_estimate_scores()
            &&& t.spec_curr() is None
        } else {
            exists|item: MinScored<u64, usize>|
                {
                    let visited = st1.spec_visit_navnode(graph, item.1, s.spec_tracker());
                    &&& #[trigger] popped_min(s.spec_visit_next(), t.spec_visit_next(), item)
                    &&& after == visited.1
                    &&& astar_visit_taken(s, t, r, item.1, item.0, visited.0)
                }
        }
    }
}

impl<G: MakeEdgeRef> AstarStepper<G> {
    /// Takes the strategy's answer for the probe of `edge`, the next edge of the
    /// current node: no answer means no probe could be placed; a cost that does not
    /// improve the target's score is discarded; a cost that does is recorded, with
    /// the current node as the target's predecessor. A placed probe is to be removed
    /// on the next step.
    pub fn take_probe_answer(&mut self, edge: EdgeReference, answer: Option<u64>) -> (r:
        AstarContinueStatus)
        requires
            old(self).wf(),
            old(self).spec_curr() == Some(edge.source),
            !old(self).spec_is_probing(),
            old(self).spec_graph().spec_has_edge(edge.id),
            edge == spec_edge_ref(old(self).spec_graph(), edge.id),
        ensures
            final(self).wf(),
            final(self).spec_graph() == old(self).spec_graph(),
            final(self).spec_start() == old(self).spec_start(),
            final(self).spec_curr() == old(self).spec_curr(),
            final(self).spec_edge_ids() == old(self).spec_edge_ids(),
            final(self).spec_estimate_scores() == old(self).spec_estimate_scores(),
            final(self).spec_visit_next() == old(self).spec_visit_next(),
            match answer {
                None => {
                    &&& r == AstarContinueStatus::Probed
                    &&& final(self).spec_scores() == old(self).spec_scores()
                    &&& final(self).spec_predecessors() == old(self).spec_predecessors()
                    &&& !final(self).spec_is_probing()
                },
                Some(cost) => {
                    let next_score = old(self).spec_scores()[edge.source].saturating_add(cost);
                    &&& final(self).spec_is_probing()
                    &&& if old(self).spec_scores().contains_key(edge.target) && old(
                        self,
                    ).spec_scores()[edge.target] <= next_score {
                        &&& r == AstarContinueStatus::ProbingButDiscarded
                        &&& final(self).spec_scores() == old(self).spec_scores()
                        &&& final(self).spec_predecessors() == old(self).spec_predecessors()
                    } else {
                        &&& r == AstarContinueStatus::Probing
                        &&& final(self).spec_scores() == old(self).spec_scores().insert(
                            edge.target,
                            next_score,
                        )
                        &&& final(self).spec_predecessors() == old(
                            self,
                        ).spec_predecessors().insert(edge.target, edge.source)
                    }
                },
            },
    {
        let cost = match answer {
            None => {
                return AstarContinueStatus::Probed;
            },
            Some(cost) => cost,
        };
        let curr_node = edge.source;
        let next = edge.target;
        // The current node was scored before it was visited.
        let node_score = *self.scores.get(&curr_node).unwrap();
        let next_score = node_score.saturating_add(cost);
        self.is_probing = true;
        if let Some(score) = self.scores.get(&next) {
            // No need to add neighbors that we have already reached through a
            // shorter path than now.
            if *score <= next_score {
                return AstarContinueStatus::ProbingButDiscarded;
            }
        }
        let ghost before = *self;
        self.scores.insert(next, next_score);
        let ghost stamp = self.stamp@ + 1;
        self.stamp = Ghost(stamp);
        proof {
            assert(before.scores@.contains_key(curr_node));
            assert forall|m: usize|
                self.path_tracker.predecessors().contains_key(m)
                    && self.path_tracker.predecessors()[m] == next implies lex_lt(
                (next_score as nat, stamp),
                self.path_tracker.ranks()[m],
            ) by {
                assert(before.path_tracker.predecessors().contains_key(m));
                assert(before.scores@.contains_key(m));
            }
        }
        self.path_tracker.set_predecessor(next, curr_node, Ghost((next_score as nat, stamp)));
        proof {
            assert(has_edge_between(self.graph, curr_node, next)) by {
                assert(self.graph.spec_has_edge(edge.id));
            }
            assert forall|n: usize| #[trigger]
                self.path_tracker.predecessors().contains_key(n) implies has_edge_between(
                self.graph,
                self.path_tracker.predecessors()[n],
                n,
            ) by {
                if n != next {
                    assert(before.path_tracker.predecessors().contains_key(n));
                }
            }
            assert forall|i: int|
                0 <= i < self.visit_next@.len() implies self.scores@.contains_key(
                #[trigger] self.visit_next@[i].1,
            ) by {
                assert(before.visit_next@[i] == self.visit_next@[i]);
            }
            assert(self.path_tracker.ranks().dom() =~= self.scores@.dom());
        }
        AstarContinueStatus::Probing
    }

    /// Puts `node` on the frontier with the score reached so far plus `estimate`, the
    /// strategy's estimate of its cost to the goal.
    pub fn push_estimate(&mut self, node: usize, estimate: u64)
        requires
            old(self).wf(),
            old(self).spec_scores().contains_key(node),
        ensures
            final(self).wf(),
            final(self).spec_graph() == old(self).spec_graph(),
            final(self).spec_start() == old(self).spec_start(),
            final(self).spec_curr() == old(self).spec_curr(),
            final(self).spec_edge_ids() == old(self).spec_edge_ids(),
            final(self).spec_estimate_scores() == old(self).spec_estimate_scores(),
            final(self).spec_scores() == old(self).spec_scores(),
            final(self).spec_predecessors() == old(self).spec_predecessors(),
            final(self).spec_is_probing() == old(self).spec_is_probing(),
            final(self).spec_visit_next() == old(self).spec_visit_next().push(
                MinScored(old(self).spec_scores()[node].saturating_add(estimate), node),
            ),
    {
        let score = *self.scores.get(&node).unwrap();
        let ghost before = *self;
        self.visit_next.push(MinScored(score.saturating_add(estimate), node));
        proof {
            assert forall|i: int|
                0 <= i < self.visit_next@.len() implies self.scores@.contains_key(
                #[trigger] self.visit_next@[i].1,
            ) by {
                if i < before.visit_next@.len() {
                    assert(before.visit_next@[i] == self.visit_next@[i]);
                }
            }
        }
    }

    /// Takes the strategy's answer for the visit of `item`'s node, just taken from the
    /// frontier: a failed visit moves on; a result ends the search with the path found
    /// and its cost; otherwise the node is visited unless it was visited before with
    /// an estimated score no greater.
    pub fn take_visit_answer<R>(
        &mut self,
        item: MinScored<u64, usize>,
        answer: Result<Option<R>, ()>,
    ) -> (r: Result<ControlFlow<(u64, Vec<usize>, R), AstarContinueStatus>, AstarError>)
        requires
            old(self).wf(),
            old(self).spec_curr() is None,
            old(self).spec_scores().contains_key(item.1),
        ensures
            final(self).wf(),
            final(self).spec_graph() == old(self).spec_graph(),
            final(self).spec_start() == old(self).spec_start(),
            final(self).spec_visit_next() == old(self).spec_visit_next(),
            final(self).spec_scores() == old(self).spec_scores(),
            final(self).spec_predecessors() == old(self).spec_predecessors(),
            !final(self).spec_is_probing(),
            astar_visit_taken(*old(self), *final(self), r, item.1, item.0, answer),
    {
        let MinScored(estimate_score, node) = item;
        let maybe_result = match answer {
            Ok(maybe_result) => maybe_result,
            Err(()) => {
                return Ok(ControlFlow::Continue(AstarContinueStatus::VisitFailed));
            },
        };
        if let Some(result) = maybe_result {
            let path = self.path_tracker.reconstruct_path_to(node);
            let cost = *self.scores.get(&node).unwrap();
            return Ok(ControlFlow::Break((cost, path, result)));
        }
        if let Some(visited_score) = self.estimate_scores.get(&node) {
            // If the node has already been visited with an equal or lower
            // estimated score than now, then we do not need to re-visit it.
            if *visited_score <= estimate_score {
                return Ok(ControlFlow::Continue(AstarContinueStatus::VisitSkipped));
            }
        }
        self.estimate_scores.insert(node, estimate_score);
        self.maybe_curr_node = Some(node);
        let ids = self.graph.edge_ids(node);
        proof {
            self.graph.lemma_edge_ids_valid(node);
        }
        let mut edge_ids: VecDeque<usize> = VecDeque::new();
        let mut k: usize = 0;
        while k < ids.len()
            invariant
                k <= ids@.len(),
                edge_ids@ == ids@.subrange(0, k as int),
            decreases ids@.len() - k,
        {
            edge_ids.push_back(ids[k]);
            k += 1;
        }
        assert(ids@.subrange(0, ids@.len() as int) == ids@);
        self.edge_ids = edge_ids;
        Ok(ControlFlow::Continue(AstarContinueStatus::Visited))
    }
}

impl<G: MakeEdgeRef, R, S: AstarStrategy<G, R>> Step<
    S,
    (u64, Vec<usize>, R),
    AstarContinueStatus,
> for AstarStepper<G> {
    type Error = AstarError;

    open spec fn inv(&self) -> bool {
        self.wf()
    }

    fn step(&mut self, strategy: &mut S) -> (r: Result<
        ControlFlow<(u64, Vec<usize>, R), AstarContinueStatus>,
        AstarError,
    >)
        ensures
            final(self).spec_graph() == old(self).spec_graph(),
            final(self).spec_start() == old(self).spec_start(),
            astar_step_done(*old(self), *final(self), r, *old(strategy), *final(strategy)),
    {
        let ghost st0 = *strategy;
        if let Some(curr_node) = self.maybe_curr_node {
            if self.is_probing {
                strategy.remove_probe(&self.graph);
                self.is_probing = false;
            }
            let ghost st1 = *strategy;
            assert(st1 == astar_before_calls(*old(self), st0));
            if let Some(edge_id) = self.edge_ids.pop_front() {
                assert(old(self).spec_edge_ids()[0] == edge_id);
                let edge = self.graph.edge_ref(edge_id);
                let answer = strategy.place_probe_at_navedge(&self.graph, edge);
                let status = self.take_probe_answer(edge, answer);
                if status == AstarContinueStatus::Probing {
                    let estimate = strategy.estimate_cost(&self.graph, edge.target);
                    self.push_estimate(edge.target, estimate);
                    assert(astar_probe_outcome(*old(self), *self, answer->0, estimate));
                }
                return Ok(ControlFlow::Continue(status));
            }
            self.maybe_curr_node = None;
        }
        let ghost st1 = *strategy;
        assert(st1 == astar_before_calls(*old(self), st0));
        let ghost frontier_before = self.visit_next@;
        let popped = pop_min(&mut self.visit_next);
        let item = match popped {
            Some(item) => item,
            None => {
                return Err(AstarError::NotFound);
            },
        };
        assert(frontier_before == old(self).spec_visit_next());
        assert(popped_min(frontier_before, self.visit_next@, item));
        let ghost i = choose|i: int|
            #![trigger frontier_before[i]]
            0 <= i < frontier_before.len() && frontier_before[i] == item && self.visit_next@
                == frontier_before.remove(i) && forall|j: int|
                0 <= j < frontier_before.len() ==> item.0 <= #[trigger] frontier_before[j].0;
        assert(self.scores@.contains_key(frontier_before[i].1));
        proof {
            assert forall|k: int|
                0 <= k < self.visit_next@.len() implies self.scores@.contains_key(
                #[trigger] self.visit_next@[k].1,
            ) by {
                if k < i {
                    assert(self.visit_next@[k] == frontier_before[k]);
                } else {
                    assert(self.visit_next@[k] == frontier_before[k + 1]);
                }
            }
        }
        let answer = strategy.visit_navnode(&self.graph, item.1, &self.path_tracker);
        let ghost mid = *self;
        let r = self.take_visit_answer(item, answer);
        assert(astar_visit_taken(mid, *self, r, item.1, item.0, answer));
        assert(astar_visit_taken(*old(self), *self, r, item.1, item.0, answer));
        r
    }
}

} // verus!

verus! {

/// A step never forgets a reached node and never raises the score of one.
pub proof fn lemma_astar_scores_only_improve<G: MakeEdgeRef, R, S: AstarStrategy<G, R>>(
    s: AstarStepper<G>,
    t: AstarStepper<G>,
    r: Result<ControlFlow<(u64, Vec<usize>, R), AstarContinueStatus>, AstarError>,
    before: S,
    after: S,
)
    requires
        astar_step_done(s, t, r, before, after),
    ensures
        forall|n: usize|
            #[trigger] s.spec_scores().contains_key(n) ==> t.spec_scores().contains_key(n)
                && t.spec_scores()[n] <= s.spec_scores()[n],
{
}

/// A path that the search returns leads from the node it started at to the goal it
/// reached, and costs the score of that goal.
pub proof fn lemma_astar_path_from_start<G: MakeEdgeRef, R, S: AstarStrategy<G, R>>(
    s: AstarStepper<G>,
    t: AstarStepper<G>,
    cost: u64,
    path: Vec<usize>,
    result: R,
    before: S,
    after: S,
)
    requires
        s.wf(),
        astar_step_done(s, t, Ok(ControlFlow::Break((cost, path, result))), before, after),
    ensures
        path@.len() >= 1,
        path@[0] == s.spec_start(),
        cost == s.spec_scores()[path@.last()],
{
    let st1 = astar_before_calls(s, before);
    let item = choose|item: MinScored<u64, usize>|
        {
            let visited = st1.spec_visit_navnode(s.spec_graph(), item.1, s.spec_tracker());
            &&& #[trigger] popped_min(s.spec_visit_next(), t.spec_visit_next(), item)
            &&& after == visited.1
            &&& astar_visit_taken(
                s,
                t,
                Ok(ControlFlow::Break((cost, path, result))),
                item.1,
                item.0,
                visited.0,
            )
        };
    let i = choose|i: int|
        #![trigger s.spec_visit_next()[i]]
        0 <= i < s.spec_visit_next().len() && s.spec_visit_next()[i] == item && t.spec_visit_next()
            == s.spec_visit_next().remove(i) && forall|j: int|
            0 <= j < s.spec_visit_next().len() ==> item.0 <= #[trigger] s.spec_visit_next()[j].0;
    assert(s.spec_scores().contains_key(s.spec_visit_next()[i].1));
    if path@.len() > 1 {
        assert(s.spec_predecessors().contains_key(path@[1]));
        assert(s.path_tracker.ranks().contains_key(path@[0]));
    }
    assert(s.spec_scores().contains_key(path@[0]));
}

/// A probe placed by a step (whether its measurement was kept or discarded) is the
/// first thing the next step takes away: the strategy that the next step's first call
/// finds is the one after `remove_probe`.
pub proof fn lemma_astar_probe_removed_next<G: MakeEdgeRef, R, S: AstarStrategy<G, R>>(
    s: AstarStepper<G>,
    t: AstarStepper<G>,
    r: Result<ControlFlow<(u64, Vec<usize>, R), AstarContinueStatus>, AstarError>,
    before: S,
    after: S,
)
    requires
        astar_step_done(s, t, r, before, after),
        r matches Ok(ControlFlow::Continue(AstarContinueStatus::Probing)) || r matches Ok(ControlFlow::Continue(AstarContinueStatus::ProbingButDiscarded)),
    ensures
        t.spec_is_probing(),
        astar_before_calls(t, after) == after.spec_remove_probe(t.spec_graph()),
{
}

/// Each predecessor link of a well-formed stepper follows an edge of the graph.
pub proof fn lemma_astar_links_follow_edges<G: MakeEdgeRef>(s: AstarStepper<G>, n: usize)
    requires
        s.wf(),
        s.spec_predecessors().contains_key(n),
    ensures
        has_edge_between(s.spec_graph(), s.spec_predecessors()[n], n),
{
}

/// A node that a probe reaches is put on the frontier with its key the sum of the
/// score just recorded for it and the estimate that the strategy gave for it in the
/// step's last call: the key is g(node) + h(node), h being exactly the strategy's
/// estimate.
pub proof fn lemma_astar_frontier_key<G: MakeEdgeRef, R, S: AstarStrategy<G, R>>(
    s: AstarStepper<G>,
    t: AstarStepper<G>,
    r: Result<ControlFlow<(u64, Vec<usize>, R), AstarContinueStatus>, AstarError>,
    before: S,
    after: S,
)
    requires
        astar_step_done(s, t, r, before, after),
        r matches Ok(ControlFlow::Continue(AstarContinueStatus::Probing)),
    ensures
        s.spec_edge_ids().len() > 0,
        exists|last: S|
            #![trigger last.spec_estimate_cost(s.spec_graph(), s.spec_graph().spec_edge_target(s.spec_edge_ids()[0]))]
            {
                let next = s.spec_graph().spec_edge_target(s.spec_edge_ids()[0]);
                let estimated = last.spec_estimate_cost(s.spec_graph(), next);
                &&& after == estimated.1
                &&& t.spec_scores().contains_key(next)
                &&& t.spec_visit_next() == s.spec_visit_next().push(
                    MinScored(t.spec_scores()[next].saturating_add(estimated.0), next),
                )
            },
{
    let graph = s.spec_graph();
    let st1 = astar_before_calls(s, before);
    let edge = spec_edge_ref(graph, s.spec_edge_ids()[0]);
    let probed = st1.spec_place_probe_at_navedge(graph, edge);
    let last = probed.1;
    let next = graph.spec_edge_target(s.spec_edge_ids()[0]);
    let estimated = last.spec_estimate_cost(graph, next);
    assert(after == estimated.1);
    assert(t.spec_visit_next() == s.spec_visit_next().push(
        MinScored(t.spec_scores()[next].saturating_add(estimated.0), next),
    ));
}

} // verus!
