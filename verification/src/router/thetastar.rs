//! The Theta* search, advanced one step at a time.
//!
//! Theta* is A* with an improvement: every time a navedge is scanned, the
//! algorithm first tries to draw directly to its target navnode from the
//! predecessor of the currently visited navnode. Note that this creates paths
//! with edges that do not all lie on the navmesh.

use core::ops::ControlFlow;
use std::collections::BTreeMap;
use vstd::prelude::*;

pub use super::astar::{EdgeReference, MakeEdgeRef, MinScored, PathTracker};
use super::astar::{is_path_to, lex_lt, pop_min, popped_min};
use crate::stepper::{EstimateProgress, LinearScale, Step};

verus! {

/// The decisions a user of [`ThetastarStepper`] supplies.
///
/// Each answer, and the strategy after the call, are named as functions of the
/// strategy before the call and of the call's arguments.
pub trait ThetastarStrategy<G: MakeEdgeRef, R>: Sized {
    /// What `visit_navnode` answers for `navnode`, and the strategy after the call.
    spec fn spec_visit_navnode(&self, graph: G, navnode: usize, tracker: PathTracker) -> (
        Result<Option<R>, ()>,
        Self,
    );

    /// What `place_probe_to_navnode` answers for `probed_navnode` (the cost of drawing
    /// to it, if a probe could be placed), and the strategy after the call.
    spec fn spec_place_probe_to_navnode(&self, graph: G, probed_navnode: usize) -> (
        Option<u64>,
        Self,
    );

    /// The strategy after `remove_probe`.
    spec fn spec_remove_probe(&self, graph: G) -> Self;

    /// What `estimate_cost_to_goal` answers for `navnode`, and the strategy after the
    /// call.
    spec fn spec_estimate_cost_to_goal(&self, graph: G, navnode: usize) -> (u64, Self);

    fn visit_navnode(&mut self, graph: &G, navnode: usize, tracker: &PathTracker) -> (r: Result<
        Option<R>,
        (),
    >)
        ensures
            (r, *final(self)) == old(self).spec_visit_navnode(*graph, navnode, *tracker),
    ;

    fn place_probe_to_navnode(&mut self, graph: &G, probed_navnode: usize) -> (r: Option<u64>)
        ensures
            (r, *final(self)) == old(self).spec_place_probe_to_navnode(*graph, probed_navnode),
    ;

    fn remove_probe(&mut self, graph: &G)
        ensures
            *final(self) == old(self).spec_remove_probe(*graph),
    ;

    fn estimate_cost_to_goal(&mut self, graph: &G, navnode: usize) -> (r: u64)
        ensures
            (r, *final(self)) == old(self).spec_estimate_cost_to_goal(*graph, navnode),
    ;
}

/// The enum that describes the current state of the algorithm.
#[derive(Clone, Copy, Debug, PartialEq, Eq, Structural)]
pub enum ThetastarState<N: Copy, E: Copy> {
    /// Visit a new navnode and copy all navedges going out of it.
    Scanning,
    /// Load a new navedge, try to probe it from current navnode's predecessor.
    /// If this fails, transition to `VisitingProbeOnNavedge`. If there is no
    /// more navedges, transition back to `Scanning`.
    VisitingProbeOnLineOfSight(N),
    /// Probe the currently loaded navedge from the current navnode.
    VisitingProbeOnNavedge(N, E),
    /// The probe is in place, retract it and continue to the next navedge.
    Probing(N),
}

#[derive(Debug, Clone, Copy, PartialEq, Eq, Structural)]
pub enum ThetastarError {
    /// The search found no path.
    NotFound,
}

/// The pathfinding algorithm Topola uses to find the shortest path to route
/// is Theta*. Theta* is just A* with an improvement: every time an navedge is
/// scanned, the algorithm first tries to draw directly to its target navnode
/// from the predecessor of the currently visited navnode.
pub struct ThetastarStepper<G> {
    state: ThetastarState<usize, usize>,
    graph: G,
    /// The priority queue of the navnodes to expand.
    frontier: Vec<MinScored<u64, usize>>,
    /// Also known as the g-scores, or just g.
    scores: BTreeMap<usize, u64>,
    /// Also known as the f-scores, or just f.
    cost_to_goal_estimate_scores: BTreeMap<usize, u64>,
    path_tracker: PathTracker,
    edge_ids: Vec<usize>,
    progress_estimate_value: u64,
    progress_estimate_maximum: u64,
    /// How many predecessor links were set so far.
    stamp: Ghost<nat>,
    /// Where the search started.
    start: Ghost<usize>,
}

/// The navnode that a state is working on, if any.
pub open spec fn state_navnode(state: ThetastarState<usize, usize>) -> Option<usize> {
    match state {
        ThetastarState::Scanning => None,
        ThetastarState::VisitingProbeOnLineOfSight(n) => Some(n),
        ThetastarState::VisitingProbeOnNavedge(n, _) => Some(n),
        ThetastarState::Probing(n) => Some(n),
    }
}

impl<G: MakeEdgeRef> ThetastarStepper<G> {
    /// The navnode the search started at.
    pub closed spec fn spec_start(&self) -> usize {
        self.start@
    }

    pub closed spec fn spec_state(&self) -> ThetastarState<usize, usize> {
        self.state
    }

    pub closed spec fn spec_graph(&self) -> G {
        self.graph
    }

    /// The frontier: the navnodes yet to expand, each with its estimated score.
    pub closed spec fn spec_frontier(&self) -> Seq<MinScored<u64, usize>> {
        self.frontier@
    }

    /// The cost of the best path found to each reached navnode.
    pub closed spec fn spec_scores(&self) -> Map<usize, u64> {
        self.scores@
    }

    /// The estimated total cost with which each expanded navnode was expanded.
    pub closed spec fn spec_estimate_scores(&self) -> Map<usize, u64> {
        self.cost_to_goal_estimate_scores@
    }

    /// The predecessor of each reached navnode on the best path found to it.
    pub closed spec fn spec_predecessors(&self) -> Map<usize, usize> {
        self.path_tracker.predecessors()
    }

    /// The navedges of the visited navnode that are yet to be probed; the last is next.
    pub closed spec fn spec_edge_ids(&self) -> Seq<usize> {
        self.edge_ids@
    }

    /// The predecessor links, with the ranks that order them.
    pub closed spec fn spec_tracker(&self) -> PathTracker {
        self.path_tracker
    }

    pub closed spec fn spec_progress_value(&self) -> u64 {
        self.progress_estimate_value
    }

    pub closed spec fn spec_progress_maximum(&self) -> u64 {
        self.progress_estimate_maximum
    }

    /// Everything but the score ranks, which may lag behind the scores at `lagging`.
    closed spec fn wf_core(&self) -> bool {
        &&& self.path_tracker.wf()
        &&& forall|i: int|
            0 <= i < self.frontier@.len() ==> self.scores@.contains_key(
                #[trigger] self.frontier@[i].1,
            )
        &&& state_navnode(self.state) matches Some(v) ==> self.scores@.contains_key(v)
        &&& self.state matches ThetastarState::VisitingProbeOnNavedge(_, e)
            ==> self.graph.spec_has_edge(e)
        &&& forall|i: int|
            0 <= i < self.edge_ids@.len() ==> self.graph.spec_has_edge(#[trigger] self.edge_ids@[i])
        &&& self.scores@.contains_key(self.start@)
        &&& self.scores@[self.start@] == 0
        &&& !self.path_tracker.predecessors().contains_key(self.start@)
    }

    /// The state that every step keeps.
    pub closed spec fn wf(&self) -> bool {
        &&& self.wf_core()
        &&& self.path_tracker.ranks().dom() == self.scores@.dom()
        &&& forall|n: usize| #[trigger]
            self.scores@.contains_key(n) ==> self.path_tracker.ranks()[n].0 == self.scores@[n]
                && self.path_tracker.ranks()[n].1 <= self.stamp@
        &&& forall|n: usize|
            #[trigger] self.scores@.contains_key(n) ==> n == self.start@
                || self.path_tracker.predecessors().contains_key(n)
    }

    /// Start a search at `start`.
    pub fn new<R, S: ThetastarStrategy<G, R>>(graph: G, start: usize, strategy: &mut S) -> (r: Self)
        ensures
            r.wf(),
            r.spec_graph() == graph,
            r.spec_state() == ThetastarState::<usize, usize>::Scanning,
            r.spec_scores() == map![start => 0u64],
            r.spec_estimate_scores() == Map::<usize, u64>::empty(),
            r.spec_predecessors() == Map::<usize, usize>::empty(),
            r.spec_edge_ids() == Seq::<usize>::empty(),
            r.spec_frontier() == seq![MinScored(r.spec_progress_maximum(), start)],
            r.spec_progress_maximum() == old(strategy).spec_estimate_cost_to_goal(graph, start).0,
            *final(strategy) == old(strategy).spec_estimate_cost_to_goal(graph, start).1,
            r.spec_progress_value() == 0,
            r.spec_start() == start,
    {
        let estimated_cost_from_start_to_goal = strategy.estimate_cost_to_goal(&graph, start);
        let mut this = Self {
            state: ThetastarState::Scanning,
            graph,
            frontier: Vec::new(),
            scores: BTreeMap::new(),
            cost_to_goal_estimate_scores: BTreeMap::new(),
            path_tracker: PathTracker::new(),
            edge_ids: Vec::new(),
            progress_estimate_value: 0,
            progress_estimate_maximum: estimated_cost_from_start_to_goal,
            stamp: Ghost(0),
            start: Ghost(start),
        };
        let zero_score: u64 = 0;
        this.scores.insert(start, zero_score);
        this.path_tracker.set_rank(start, Ghost((0, 0)));
        this.frontier.push(MinScored(estimated_cost_from_start_to_goal, start));
        assert(this.scores@ =~= map![start => 0u64]);
        assert(this.frontier@ =~= seq![MinScored(estimated_cost_from_start_to_goal, start)]);
        this
    }

    pub fn state(&self) -> (r: &ThetastarState<usize, usize>)
        ensures
            *r == self.spec_state(),
    {
        &self.state
    }

    pub fn graph(&self) -> (r: &G)
        ensures
            *r == self.spec_graph(),
    {
        &self.graph
    }

    pub fn scores(&self) -> (r: &BTreeMap<usize, u64>)
        ensures
            r@ == self.spec_scores(),
    {
        &self.scores
    }

    pub fn cost_to_goal_estimate_scores(&self) -> (r: &BTreeMap<usize, u64>)
        ensures
            r@ == self.spec_estimate_scores(),
    {
        &self.cost_to_goal_estimate_scores
    }
}

impl<G: MakeEdgeRef> ThetastarStepper<G> {
    fn push_to_frontier(
        &mut self,
        next: usize,
        next_score: u64,
        predecessor: usize,
        cost_to_goal_estimate: u64,
    )
        requires
            old(self).wf_core(),
            old(self).scores@.contains_key(next),
            old(self).scores@[next] == next_score,
            forall|n: usize|
                n != next ==> (old(self).path_tracker.ranks().contains_key(n)
                    <==> #[trigger] old(self).scores@.contains_key(n)),
            forall|n: usize|
                n != next && #[trigger] old(self).scores@.contains_key(n)
                    ==> old(self).path_tracker.ranks()[n].0 == old(self).scores@[n]
                    && old(self).path_tracker.ranks()[n].1 <= old(self).stamp@,
            old(self).scores@.contains_key(predecessor),
            predecessor != next,
            old(self).scores@[predecessor] <= next_score,
            forall|m: usize|
                old(self).path_tracker.predecessors().contains_key(m)
                    && old(self).path_tracker.predecessors()[m] == next
                    ==> old(self).path_tracker.ranks()[m].0 > next_score,
            next != old(self).start@,
            forall|n: usize|
                #[trigger] old(self).scores@.contains_key(n) ==> n == old(self).start@ || n == next
                    || old(self).path_tracker.predecessors().contains_key(n),
        ensures
            final(self).wf(),
            final(self).start == old(self).start,
            final(self).state == old(self).state,
            final(self).graph == old(self).graph,
            final(self).scores@ == old(self).scores@,
            final(self).cost_to_goal_estimate_scores@ == old(self).cost_to_goal_estimate_scores@,
            final(self).edge_ids@ == old(self).edge_ids@,
            final(self).path_tracker.predecessors() == old(self).path_tracker.predecessors().insert(
                next,
                predecessor,
            ),
            final(self).frontier@ == old(self).frontier@.push(
                MinScored(next_score.saturating_add(cost_to_goal_estimate), next),
            ),
            final(self).progress_estimate_maximum == if cost_to_goal_estimate
                > old(self).progress_estimate_maximum {
                cost_to_goal_estimate
            } else {
                old(self).progress_estimate_maximum
            },
            final(self).progress_estimate_value == if (final(self).progress_estimate_maximum
                - cost_to_goal_estimate) > old(self).progress_estimate_value {
                (final(self).progress_estimate_maximum - cost_to_goal_estimate) as u64
            } else {
                old(self).progress_estimate_value
            },
    {
        if cost_to_goal_estimate > self.progress_estimate_maximum {
            self.progress_estimate_maximum = cost_to_goal_estimate;
        }

        if self.progress_estimate_maximum - cost_to_goal_estimate > self.progress_estimate_value {
            self.progress_estimate_value = self.progress_estimate_maximum - cost_to_goal_estimate;
        }

        let ghost stamp = self.stamp@ + 1;
        self.stamp = Ghost(stamp);
        proof {
            assert(self.path_tracker.ranks().contains_key(predecessor));
        }
        self.path_tracker.set_predecessor(next, predecessor, Ghost((next_score as nat, stamp)));
        let next_estimate_score = next_score.saturating_add(cost_to_goal_estimate);
        let ghost before = self.frontier@;
        self.frontier.push(MinScored(next_estimate_score, next));
        proof {
            assert forall|i: int|
                0 <= i < self.frontier@.len() implies self.scores@.contains_key(
                #[trigger] self.frontier@[i].1,
            ) by {
                if i < before.len() {
                    assert(before[i] == self.frontier@[i]);
                }
            }
            assert(self.path_tracker.ranks().dom() =~= self.scores@.dom());
        }
    }
}

/// Probing `to` from `from`, with probe cost `cost` and cost-to-goal estimate `estimate`,
/// found a better path to `to` and turned `s` into `t`.
pub open spec fn thetastar_probe_outcome<G: MakeEdgeRef>(
    s: ThetastarStepper<G>,
    t: ThetastarStepper<G>,
    from: usize,
    to: usize,
    cost: u64,
    estimate: u64,
) -> bool {
    let next_score = s.spec_scores()[from].saturating_add(cost);
    let maximum = if estimate > s.spec_progress_maximum() {
        estimate
    } else {
        s.spec_progress_maximum()
    };
    &&& !s.spec_scores().contains_key(to) || s.spec_scores()[to] > next_score
    &&& t.spec_scores() == s.spec_scores().insert(to, next_score)
    &&& t.spec_predecessors() == s.spec_predecessors().insert(to, from)
    &&& t.spec_frontier() == s.spec_frontier().push(
        MinScored(next_score.saturating_add(estimate), to),
    )
    &&& t.spec_progress_maximum() == maximum
    &&& t.spec_progress_value() == if maximum - estimate > s.spec_progress_value() {
        (maximum - estimate) as u64
    } else {
        s.spec_progress_value()
    }
}

/// The scores, predecessor links, frontier and progress of `s` and `t` are the same.
pub open spec fn thetastar_unchanged<G: MakeEdgeRef>(
    s: ThetastarStepper<G>,
    t: ThetastarStepper<G>,
) -> bool {
    &&& t.spec_scores() == s.spec_scores()
    &&& t.spec_predecessors() == s.spec_predecessors()
    &&& t.spec_frontier() == s.spec_frontier()
    &&& t.spec_progress_maximum() == s.spec_progress_maximum()
    &&& t.spec_progress_value() == s.spec_progress_value()
}

/// What visiting `node`, taken from the frontier with estimated score
/// `estimate_score`, gives when the strategy answers `answer`: `s` is the stepper
/// before, `t` after, and `r` what is returned.
pub open spec fn thetastar_visit_taken<G: MakeEdgeRef, R>(
    s: ThetastarStepper<G>,
    t: ThetastarStepper<G>,
    r: Result<ControlFlow<(u64, Vec<usize>, R), ThetastarState<usize, usize>>, ThetastarError>,
    node: usize,
    estimate_score: u64,
    answer: Result<Option<R>, ()>,
) -> bool {
    match answer {
        Err(()) => {
            &&& r matches Ok(ControlFlow::Continue(ThetastarState::Scanning))
            &&& t.spec_state() == s.spec_state()
            &&& t.spec_estimate_scores() == s.spec_estimate_scores()
            &&& t.spec_edge_ids() == s.spec_edge_ids()
        },
        Ok(Some(x)) => {
            &&& r matches Ok(ControlFlow::Break((cost, path, y))) && y == x && cost
                == s.spec_scores()[node] && is_path_to(s.spec_predecessors(), path@, node)
            &&& t.spec_state() == s.spec_state()
            &&& t.spec_estimate_scores() == s.spec_estimate_scores()
            &&& t.spec_edge_ids() == s.spec_edge_ids()
        },
        Ok(None) => if s.spec_estimate_scores().contains_key(node)
            && s.spec_estimate_scores()[node] <= estimate_score {
            &&& r matches Ok(ControlFlow::Continue(ThetastarState::Scanning))
            &&& t.spec_state() == s.spec_state()
            &&& t.spec_estimate_scores() == s.spec_estimate_scores()
            &&& t.spec_edge_ids() == s.spec_edge_ids()
        } else {
            &&& r matches Ok(ControlFlow::Continue(ThetastarState::VisitingProbeOnLineOfSight(v)))
                && v == node
            &&& t.spec_state() == ThetastarState::<usize, usize>::VisitingProbeOnLineOfSight(node)
            &&& t.spec_estimate_scores() == s.spec_estimate_scores().insert(node, estimate_score)
            &&& t.spec_edge_ids() == s.spec_graph().spec_edge_ids(node)
        },
    }
}

/// A step in the `Scanning` state: pop the navnode with the lowest estimated score from
/// the frontier and visit it. `before` and `after` are the strategy before and after.
pub open spec fn thetastar_scanning_done<G: MakeEdgeRef, R, S: ThetastarStrategy<G, R>>(
    s: ThetastarStepper<G>,
    t: ThetastarStepper<G>,
    r: Result<ControlFlow<(u64, Vec<usize>, R), ThetastarState<usize, usize>>, ThetastarError>,
    before: S,
    after: S,
) -> bool {
    &&& t.spec_scores() == s.spec_scores()
    &&& t.spec_predecessors() == s.spec_predecessors()
    &&& t.spec_progress_maximum() == s.spec_progress_maximum()
    &&& t.spec_progress_value() == s.spec_progress_value()
    &&& if s.spec_frontier().len() == 0 {
        &&& r matches Err(ThetastarError::NotFound)
        &&& after == before
        &&& t.spec_frontier() == s.spec_frontier()
        &&& t.spec_state() == s.spec_state()
        &&& t.spec_estimate_scores() == s.spec_estimate_scores()
        &&& t.spec_edge_ids() == s.spec_edge_ids()
    } else {
        exists|item: MinScored<u64, usize>|
            {
                let visited = before.spec_visit_navnode(s.spec_graph(), item.1, s.spec_tracker());
                &&& #[trigger] popped_min(s.spec_frontier(), t.spec_frontier(), item)
                &&& after == visited.1
                &&& thetastar_visit_taken(s, t, r, item.1, item.0, visited.0)
            }
    }
}

/// A step in the `VisitingProbeOnLineOfSight(v)` state: take the last navedge left and
/// probe its target from the predecessor of `v`, visiting that predecessor first and
/// coming back to `v` if no probe could be placed.
pub open spec fn thetastar_line_of_sight_done<G: MakeEdgeRef, R, S: ThetastarStrategy<G, R>>(
    s: ThetastarStepper<G>,
    t: ThetastarStepper<G>,
    v: usize,
    r: Result<ControlFlow<(u64, Vec<usize>, R), ThetastarState<usize, usize>>, ThetastarError>,
    before: S,
    after: S,
) -> bool {
    let graph = s.spec_graph();
    &&& t.spec_estimate_scores() == s.spec_estimate_scores()
    &&& if s.spec_edge_ids().len() == 0 {
        &&& r matches Ok(ControlFlow::Continue(ThetastarState::Scanning))
        &&& t.spec_state() == ThetastarState::<usize, usize>::Scanning
        &&& thetastar_unchanged(s, t)
        &&& t.spec_edge_ids() == s.spec_edge_ids()
        &&& after == before
    } else {
        let e = s.spec_edge_ids().last();
        let to = graph.spec_edge_target(e);
        &&& t.spec_edge_ids() == s.spec_edge_ids().drop_last()
        &&& if !s.spec_predecessors().contains_key(v) {
            &&& r matches Ok(ControlFlow::Continue(ThetastarState::VisitingProbeOnNavedge(v2, e2)))
                && v2 == v && e2 == e
            &&& t.spec_state() == ThetastarState::<usize, usize>::VisitingProbeOnNavedge(v, e)
            &&& thetastar_unchanged(s, t)
            &&& after == before
        } else {
            let parent = s.spec_predecessors()[v];
            let at_parent = before.spec_visit_navnode(graph, parent, s.spec_tracker()).1;
            let probed = at_parent.spec_place_probe_to_navnode(graph, to);
            match probed.0 {
                None => {
                    &&& r matches Ok(
                        ControlFlow::Continue(ThetastarState::VisitingProbeOnNavedge(v2, e2)),
                    ) && v2 == v && e2 == e
                    &&& t.spec_state() == ThetastarState::<usize, usize>::VisitingProbeOnNavedge(
                        v,
                        e,
                    )
                    &&& thetastar_unchanged(s, t)
                    &&& after == probed.1.spec_visit_navnode(graph, v, s.spec_tracker()).1
                },
                Some(cost) => {
                    let next_score = s.spec_scores()[parent].saturating_add(cost);
                    if s.spec_scores().contains_key(to) && s.spec_scores()[to] <= next_score {
                        &&& r matches Ok(
                            ControlFlow::Continue(ThetastarState::VisitingProbeOnNavedge(v2, e2)),
                        ) && v2 == v && e2 == e
                        &&& t.spec_state()
                            == ThetastarState::<usize, usize>::VisitingProbeOnNavedge(v, e)
                        &&& thetastar_unchanged(s, t)
                        &&& after == probed.1
                    } else {
                        let estimated = probed.1.spec_estimate_cost_to_goal(graph, to);
                        &&& r matches Ok(ControlFlow::Continue(ThetastarState::Probing(v2)))
                            && v2 == v
                        &&& t.spec_state() == ThetastarState::<usize, usize>::Probing(v)
                        &&& thetastar_probe_outcome(s, t, parent, to, cost, estimated.0)
                        &&& after == estimated.1
                    }
                },
            }
        }
    }
}

/// A step in the `VisitingProbeOnNavedge(v, e)` state: probe the target of `e` from `v`.
pub open spec fn thetastar_navedge_done<G: MakeEdgeRef, R, S: ThetastarStrategy<G, R>>(
    s: ThetastarStepper<G>,
    t: ThetastarStepper<G>,
    v: usize,
    e: usize,
    r: Result<ControlFlow<(u64, Vec<usize>, R), ThetastarState<usize, usize>>, ThetastarError>,
    before: S,
    after: S,
) -> bool {
    let graph = s.spec_graph();
    let to = graph.spec_edge_target(e);
    let probed = before.spec_place_probe_to_navnode(graph, to);
    &&& t.spec_estimate_scores() == s.spec_estimate_scores()
    &&& t.spec_edge_ids() == s.spec_edge_ids()
    &&& match probed.0 {
        None => {
            &&& r matches Ok(ControlFlow::Continue(ThetastarState::VisitingProbeOnLineOfSight(v2)))
                && v2 == v
            &&& t.spec_state() == ThetastarState::<usize, usize>::VisitingProbeOnLineOfSight(v)
            &&& thetastar_unchanged(s, t)
            &&& after == probed.1
        },
        Some(cost) => {
            let next_score = s.spec_scores()[v].saturating_add(cost);
            &&& r matches Ok(ControlFlow::Continue(ThetastarState::Probing(v2))) && v2 == v
            &&& t.spec_state() == ThetastarState::<usize, usize>::Probing(v)
            &&& if s.spec_scores().contains_key(to) && s.spec_scores()[to] <= next_score {
                &&& thetastar_unchanged(s, t)
                &&& after == probed.1
            } else {
                let estimated = probed.1.spec_estimate_cost_to_goal(graph, to);
                &&& thetastar_probe_outcome(s, t, v, to, cost, estimated.0)
                &&& after == estimated.1
            }
        },
    }
}

/// A step in the `Probing(v)` state: remove the probe.
pub open spec fn thetastar_probing_done<G: MakeEdgeRef, R, S: ThetastarStrategy<G, R>>(
    s: ThetastarStepper<G>,
    t: ThetastarStepper<G>,
    v: usize,
    r: Result<ControlFlow<(u64, Vec<usize>, R), ThetastarState<usize, usize>>, ThetastarError>,
    before: S,
    after: S,
) -> bool {
    &&& r matches Ok(ControlFlow::Continue(ThetastarState::VisitingProbeOnLineOfSight(v2)))
        && v2 == v
    &&& t.spec_state() == ThetastarState::<usize, usize>::VisitingProbeOnLineOfSight(v)
    &&& thetastar_unchanged(s, t)
    &&& t.spec_estimate_scores() == s.spec_estimate_scores()
    &&& t.spec_edge_ids() == s.spec_edge_ids()
    &&& after == before.spec_remove_probe(s.spec_graph())
}

/// What one step of the Theta* stepper does: `s` is the stepper before the step, `t`
/// after it, `r` what the step returned, and `before` and `after` the strategy before
/// and after the step. Each answer of the strategy is the one it gives to the arguments
/// that the step hands it.
pub open spec fn thetastar_step_done<G: MakeEdgeRef, R, S: ThetastarStrategy<G, R>>(
    s: ThetastarStepper<G>,
    t: ThetastarStepper<G>,
    r: Result<ControlFlow<(u64, Vec<usize>, R), ThetastarState<usize, usize>>, ThetastarError>,
    before: S,
    after: S,
) -> bool {
    &&& t.spec_graph() == s.spec_graph()
    &&& r matches Ok(ControlFlow::Continue(st)) ==> st == t.spec_state()
    &&& match s.spec_state() {
        ThetastarState::Scanning => thetastar_scanning_done(s, t, r, before, after),
        ThetastarState::VisitingProbeOnLineOfSight(v) => thetastar_line_of_sight_done(
            s,
            t,
            v,
            r,
            before,
            after,
        ),
        ThetastarState::VisitingProbeOnNavedge(v, e) => thetastar_navedge_done(
            s,
            t,
            v,
            e,
            r,
            before,
            after,
        ),
        ThetastarState::Probing(v) => thetastar_probing_done(s, t, v, r, before, after),
    }
}

/// `s` became `t` by recording `next_score` as the better score of `next`, reached from
/// `from`, with cost-to-goal estimate `estimate`.
pub open spec fn thetastar_improved<G: MakeEdgeRef>(
    s: ThetastarStepper<G>,
    t: ThetastarStepper<G>,
    from: usize,
    next: usize,
    next_score: u64,
    estimate: u64,
) -> bool {
    let maximum = if estimate > s.spec_progress_maximum() {
        estimate
    } else {
        s.spec_progress_maximum()
    };
    &&& !s.spec_scores().contains_key(next) || s.spec_scores()[next] > next_score
    &&& t.spec_scores() == s.spec_scores().insert(next, next_score)
    &&& t.spec_predecessors() == s.spec_predecessors().insert(next, from)
    &&& t.spec_frontier() == s.spec_frontier().push(
        MinScored(next_score.saturating_add(estimate), next),
    )
    &&& t.spec_progress_maximum() == maximum
    &&& t.spec_progress_value() == if maximum - estimate > s.spec_progress_value() {
        (maximum - estimate) as u64
    } else {
        s.spec_progress_value()
    }
}

impl<G: MakeEdgeRef> ThetastarStepper<G> {
    /// Whether `next_score` improves on the score `next` has: `next` was not reached,
    /// or was reached only through a path with a greater score.
    pub fn improves(&self, next: usize, next_score: u64) -> (r: bool)
        ensures
            r == !(self.spec_scores().contains_key(next) && self.spec_scores()[next]
                <= next_score),
    {
        match self.scores.get(&next) {
            Some(score) => *score > next_score,
            None => true,
        }
    }

    /// Records `next_score` as the score of `next`, reached from `from`, and puts `next`
    /// on the frontier with `estimate`, the strategy's estimate of its cost to the goal.
    pub fn record_improvement(&mut self, from: usize, next: usize, next_score: u64, estimate: u64)
        requires
            old(self).wf(),
            old(self).spec_scores().contains_key(from),
            old(self).spec_scores()[from] <= next_score,
            !(old(self).spec_scores().contains_key(next) && old(self).spec_scores()[next]
                <= next_score),
        ensures
            final(self).wf(),
            final(self).spec_state() == old(self).spec_state(),
            final(self).spec_graph() == old(self).spec_graph(),
            final(self).spec_estimate_scores() == old(self).spec_estimate_scores(),
            final(self).spec_edge_ids() == old(self).spec_edge_ids(),
            final(self).spec_start() == old(self).spec_start(),
            thetastar_improved(*old(self), *final(self), from, next, next_score, estimate),
    {
        let ghost before = *self;
        self.scores.insert(next, next_score);
        proof {
            assert forall|m: usize|
                self.path_tracker.predecessors().contains_key(m)
                    && self.path_tracker.predecessors()[m] == next implies self.path_tracker.ranks()[m].0
                > next_score by {
                assert(before.path_tracker.predecessors().contains_key(m));
                assert(before.scores@.contains_key(m));
            }
        }
        self.push_to_frontier(next, next_score, from, estimate);
    }

    /// Takes the strategy's answer for the visit of `item`'s navnode, just taken from
    /// the frontier: a failed visit keeps scanning; a result ends the search with the
    /// path found and its cost; otherwise the navnode is expanded unless it was expanded
    /// before with an estimated score no greater.
    pub fn take_visit_answer<R>(
        &mut self,
        item: MinScored<u64, usize>,
        answer: Result<Option<R>, ()>,
    ) -> (r: Result<ControlFlow<(u64, Vec<usize>, R), ThetastarState<usize, usize>>, ThetastarError>)
        requires
            old(self).wf(),
            old(self).spec_state() == ThetastarState::<usize, usize>::Scanning,
            old(self).spec_scores().contains_key(item.1),
        ensures
            final(self).wf(),
            final(self).spec_graph() == old(self).spec_graph(),
            final(self).spec_start() == old(self).spec_start(),
            final(self).spec_frontier() == old(self).spec_frontier(),
            final(self).spec_scores() == old(self).spec_scores(),
            final(self).spec_predecessors() == old(self).spec_predecessors(),
            final(self).spec_progress_maximum() == old(self).spec_progress_maximum(),
            final(self).spec_progress_value() == old(self).spec_progress_value(),
            r matches Ok(ControlFlow::Continue(st)) ==> st == final(self).spec_state(),
            thetastar_visit_taken(*old(self), *final(self), r, item.1, item.0, answer),
    {
        let MinScored(estimate_score, navnode) = item;
        let maybe_result = match answer {
            Ok(maybe_result) => maybe_result,
            Err(()) => {
                return Ok(ControlFlow::Continue(self.state));
            },
        };
        if let Some(result) = maybe_result {
            let path = self.path_tracker.reconstruct_path_to(navnode);
            let cost = *self.scores.get(&navnode).unwrap();
            return Ok(ControlFlow::Break((cost, path, result)));
        }
        if let Some(visited_score) = self.cost_to_goal_estimate_scores.get(&navnode) {
            // If the node has already been visited with an equal or lower
            // estimated score than now, then we do not need to re-visit it.
            if *visited_score <= estimate_score {
                return Ok(ControlFlow::Continue(self.state));
            }
        }
        self.cost_to_goal_estimate_scores.insert(navnode, estimate_score);
        self.edge_ids = self.graph.edge_ids(navnode);
        proof {
            self.graph.lemma_edge_ids_valid(navnode);
        }
        self.state = ThetastarState::VisitingProbeOnLineOfSight(navnode);
        Ok(ControlFlow::Continue(self.state))
    }

    fn step_scanning<R, S: ThetastarStrategy<G, R>>(&mut self, strategy: &mut S) -> (r: Result<
        ControlFlow<(u64, Vec<usize>, R), ThetastarState<usize, usize>>,
        ThetastarError,
    >)
        requires
            old(self).wf(),
            old(self).state == ThetastarState::<usize, usize>::Scanning,
        ensures
            final(self).wf(),
            final(self).graph == old(self).graph,
            final(self).start == old(self).start,
            r matches Ok(ControlFlow::Continue(st)) ==> st == final(self).state,
            thetastar_scanning_done(*old(self), *final(self), r, *old(strategy), *final(strategy)),
    {
        let ghost frontier_before = self.frontier@;
        let item = match pop_min(&mut self.frontier) {
            Some(item) => item,
            None => {
                return Err(ThetastarError::NotFound);
            },
        };
        assert(popped_min(frontier_before, self.frontier@, item));
        let ghost i = choose|i: int|
            #![trigger frontier_before[i]]
            0 <= i < frontier_before.len() && frontier_before[i] == item && self.frontier@
                == frontier_before.remove(i) && forall|j: int|
                0 <= j < frontier_before.len() ==> item.0 <= #[trigger] frontier_before[j].0;
        assert(self.scores@.contains_key(frontier_before[i].1));
        proof {
            assert forall|k: int|
                0 <= k < self.frontier@.len() implies self.scores@.contains_key(
                #[trigger] self.frontier@[k].1,
            ) by {
                if k < i {
                    assert(self.frontier@[k] == frontier_before[k]);
                } else {
                    assert(self.frontier@[k] == frontier_before[k + 1]);
                }
            }
        }
        let answer = strategy.visit_navnode(&self.graph, item.1, &self.path_tracker);
        let ghost mid = *self;
        let r = self.take_visit_answer(item, answer);
        assert(thetastar_visit_taken(mid, *self, r, item.1, item.0, answer));
        assert(thetastar_visit_taken(*old(self), *self, r, item.1, item.0, answer));
        r
    }

    fn step_line_of_sight<R, S: ThetastarStrategy<G, R>>(
        &mut self,
        visited_navnode: usize,
        strategy: &mut S,
    ) -> (r: Result<
        ControlFlow<(u64, Vec<usize>, R), ThetastarState<usize, usize>>,
        ThetastarError,
    >)
        requires
            old(self).wf(),
            old(self).state == ThetastarState::<usize, usize>::VisitingProbeOnLineOfSight(visited_navnode),
        ensures
            final(self).wf(),
            final(self).graph == old(self).graph,
            final(self).start == old(self).start,
            r matches Ok(ControlFlow::Continue(st)) ==> st == final(self).state,
            thetastar_line_of_sight_done(
                *old(self),
                *final(self),
                visited_navnode,
                r,
                *old(strategy),
                *final(strategy),
            ),
    {
        let ghost edges_before = self.edge_ids@;
        if let Some(curr_navedge) = self.edge_ids.pop() {
            assert(edges_before[edges_before.len() - 1] == curr_navedge);
            assert(self.edge_ids@ == edges_before.drop_last());
            let to_navnode = self.graph.edge_ref(curr_navedge).target;
            assert(to_navnode == old(self).spec_graph().spec_edge_target(
                old(self).spec_edge_ids().last(),
            ));
            if let Some(parent_navnode) = self.path_tracker.predecessor(visited_navnode) {
                // Visit parent node.
                let _ = strategy.visit_navnode(
                    &self.graph,
                    parent_navnode,
                    &self.path_tracker,
                );
                let parent_score = *self.scores.get(&parent_navnode).unwrap();
                let answer = strategy.place_probe_to_navnode(&self.graph, to_navnode);
                if let Some(los_cost) = answer {
                    let next_score = parent_score.saturating_add(los_cost);
                    if !self.improves(to_navnode, next_score) {
                        self.state = ThetastarState::VisitingProbeOnNavedge(
                            visited_navnode,
                            curr_navedge,
                        );
                        return Ok(ControlFlow::Continue(self.state));
                    }
                    let estimate = strategy.estimate_cost_to_goal(&self.graph, to_navnode);
                    self.record_improvement(parent_navnode, to_navnode, next_score, estimate);
                    self.state = ThetastarState::Probing(visited_navnode);
                    assert(thetastar_probe_outcome(
                        *old(self),
                        *self,
                        parent_navnode,
                        to_navnode,
                        los_cost,
                        estimate,
                    ));
                    Ok(ControlFlow::Continue(self.state))
                } else {
                    // Come back from parent node if drawing from it failed.
                    let _ = strategy.visit_navnode(
                        &self.graph,
                        visited_navnode,
                        &self.path_tracker,
                    );
                    self.state = ThetastarState::VisitingProbeOnNavedge(
                        visited_navnode,
                        curr_navedge,
                    );
                    Ok(ControlFlow::Continue(self.state))
                }
            } else {
                self.state = ThetastarState::VisitingProbeOnNavedge(
                    visited_navnode,
                    curr_navedge,
                );
                Ok(ControlFlow::Continue(self.state))
            }
        } else {
            self.state = ThetastarState::Scanning;
            Ok(ControlFlow::Continue(self.state))
        }
    }

    fn step_navedge<R, S: ThetastarStrategy<G, R>>(
        &mut self,
        visited_navnode: usize,
        curr_navedge: usize,
        strategy: &mut S,
    ) -> (r: Result<
        ControlFlow<(u64, Vec<usize>, R), ThetastarState<usize, usize>>,
        ThetastarError,
    >)
        requires
            old(self).wf(),
            old(self).state == ThetastarState::<usize, usize>::VisitingProbeOnNavedge(visited_navnode, curr_navedge),
        ensures
            final(self).wf(),
            final(self).graph == old(self).graph,
            final(self).start == old(self).start,
            r matches Ok(ControlFlow::Continue(st)) ==> st == final(self).state,
            thetastar_navedge_done(
                *old(self),
                *final(self),
                visited_navnode,
                curr_navedge,
                r,
                *old(strategy),
                *final(strategy),
            ),
    {
        let visited_score = *self.scores.get(&visited_navnode).unwrap();
        let to_navnode = self.graph.edge_ref(curr_navedge).target;
        let answer = strategy.place_probe_to_navnode(&self.graph, to_navnode);
        if let Some(navedge_cost) = answer {
            let next_score = visited_score.saturating_add(navedge_cost);
            if self.improves(to_navnode, next_score) {
                let estimate = strategy.estimate_cost_to_goal(&self.graph, to_navnode);
                self.record_improvement(visited_navnode, to_navnode, next_score, estimate);
                self.state = ThetastarState::Probing(visited_navnode);
                assert(thetastar_probe_outcome(
                    *old(self),
                    *self,
                    visited_navnode,
                    to_navnode,
                    navedge_cost,
                    estimate,
                ));
            } else {
                self.state = ThetastarState::Probing(visited_navnode);
            }
            Ok(ControlFlow::Continue(self.state))
        } else {
            self.state = ThetastarState::VisitingProbeOnLineOfSight(visited_navnode);
            Ok(ControlFlow::Continue(self.state))
        }
    }

    fn step_probing<R, S: ThetastarStrategy<G, R>>(
        &mut self,
        visited_navnode: usize,
        strategy: &mut S,
    ) -> (r: Result<
        ControlFlow<(u64, Vec<usize>, R), ThetastarState<usize, usize>>,
        ThetastarError,
    >)
        requires
            old(self).wf(),
            old(self).state == ThetastarState::<usize, usize>::Probing(visited_navnode),
        ensures
            final(self).wf(),
            final(self).graph == old(self).graph,
            final(self).start == old(self).start,
            r matches Ok(ControlFlow::Continue(st)) ==> st == final(self).state,
            thetastar_probing_done(
                *old(self),
                *final(self),
                visited_navnode,
                r,
                *old(strategy),
                *final(strategy),
            ),
    {
        strategy.remove_probe(&self.graph);
        self.state = ThetastarState::VisitingProbeOnLineOfSight(visited_navnode);
        Ok(ControlFlow::Continue(self.state))
    }
}

impl<G: MakeEdgeRef, R, S: ThetastarStrategy<G, R>> Step<
    S,
    (u64, Vec<usize>, R),
    ThetastarState<usize, usize>,
> for ThetastarStepper<G> {
    type Error = ThetastarError;

    open spec fn inv(&self) -> bool {
        self.wf()
    }

    fn step(&mut self, strategy: &mut S) -> (r: Result<
        ControlFlow<(u64, Vec<usize>, R), ThetastarState<usize, usize>>,
        ThetastarError,
    >)
        ensures
            final(self).spec_start() == old(self).spec_start(),
            thetastar_step_done(*old(self), *final(self), r, *old(strategy), *final(strategy)),
    {
        match self.state {
            ThetastarState::Scanning => self.step_scanning(strategy),
            ThetastarState::VisitingProbeOnLineOfSight(visited_navnode) => {
                self.step_line_of_sight(visited_navnode, strategy)
            },
            ThetastarState::VisitingProbeOnNavedge(visited_navnode, curr_navedge) => {
                self.step_navedge(visited_navnode, curr_navedge, strategy)
            },
            ThetastarState::Probing(visited_navnode) => self.step_probing(visited_navnode, strategy),
        }
    }
}

impl<G: MakeEdgeRef> EstimateProgress for ThetastarStepper<G> {
    type Value = u64;
    type Subscale = ();

    fn estimate_progress(&self) -> (r: LinearScale<u64, ()>)
        ensures
            r.spec_value() == self.spec_progress_value(),
            r.spec_maximum() == self.spec_progress_maximum(),
    {
        LinearScale::new(self.progress_estimate_value, self.progress_estimate_maximum, ())
    }
}

} // verus!

verus! {

/// A step never forgets a reached navnode and never raises the score of one.
pub proof fn lemma_thetastar_scores_only_improve<G: MakeEdgeRef, R, S: ThetastarStrategy<G, R>>(
    s: ThetastarStepper<G>,
    t: ThetastarStepper<G>,
    r: Result<ControlFlow<(u64, Vec<usize>, R), ThetastarState<usize, usize>>, ThetastarError>,
    before: S,
    after: S,
)
    requires
        thetastar_step_done(s, t, r, before, after),
    ensures
        forall|n: usize|
            #[trigger] s.spec_scores().contains_key(n) ==> t.spec_scores().contains_key(n)
                && t.spec_scores()[n] <= s.spec_scores()[n],
{
}

/// A path that the search returns leads from the navnode it started at to the goal it
/// reached, and costs the score of that goal.
pub proof fn lemma_thetastar_path_from_start<G: MakeEdgeRef, R, S: ThetastarStrategy<G, R>>(
    s: ThetastarStepper<G>,
    t: ThetastarStepper<G>,
    cost: u64,
    path: Vec<usize>,
    result: R,
    before: S,
    after: S,
)
    requires
        s.wf(),
        thetastar_step_done(s, t, Ok(ControlFlow::Break((cost, path, result))), before, after),
    ensures
        path@.len() >= 1,
        path@[0] == s.spec_start(),
        cost == s.spec_scores()[path@.last()],
{
    let item = choose|item: MinScored<u64, usize>|
        {
            let visited = before.spec_visit_navnode(s.spec_graph(), item.1, s.spec_tracker());
            &&& #[trigger] popped_min(s.spec_frontier(), t.spec_frontier(), item)
            &&& after == visited.1
            &&& thetastar_visit_taken(
                s,
                t,
                Ok(ControlFlow::Break((cost, path, result))),
                item.1,
                item.0,
                visited.0,
            )
        };
    let i = choose|i: int|
        #![trigger s.spec_frontier()[i]]
        0 <= i < s.spec_frontier().len() && s.spec_frontier()[i] == item && t.spec_frontier()
            == s.spec_frontier().remove(i) && forall|j: int|
            0 <= j < s.spec_frontier().len() ==> item.0 <= #[trigger] s.spec_frontier()[j].0;
    assert(s.spec_scores().contains_key(s.spec_frontier()[i].1));
    if path@.len() > 1 {
        assert(s.spec_predecessors().contains_key(path@[1]));
        assert(s.path_tracker.ranks().contains_key(path@[0]));
    }
    assert(s.spec_scores().contains_key(path@[0]));
}

/// A probe placed by a step is the first thing the next step takes away: a step that
/// leaves the stepper `Probing` is followed by a step whose only call to the strategy is
/// `remove_probe`.
pub proof fn lemma_thetastar_probe_removed_next<G: MakeEdgeRef, R, S: ThetastarStrategy<G, R>>(
    t: ThetastarStepper<G>,
    u: ThetastarStepper<G>,
    r: Result<ControlFlow<(u64, Vec<usize>, R), ThetastarState<usize, usize>>, ThetastarError>,
    before: S,
    after: S,
)
    requires
        t.spec_state() is Probing,
        thetastar_step_done(t, u, r, before, after),
    ensures
        after == before.spec_remove_probe(t.spec_graph()),
{
}

/// When the line-of-sight probe from the parent fails, the strategy is brought back
/// to the navnode being expanded: the strategy after the step is the one that visited
/// the parent, failed to place the probe, and then visited the expanded navnode again,
/// so the navedge probe that follows is made from the expanded navnode.
pub proof fn lemma_thetastar_back_at_visited_after_blocked_sight<
    G: MakeEdgeRef,
    R,
    S: ThetastarStrategy<G, R>,
>(
    s: ThetastarStepper<G>,
    t: ThetastarStepper<G>,
    r: Result<ControlFlow<(u64, Vec<usize>, R), ThetastarState<usize, usize>>, ThetastarError>,
    before: S,
    after: S,
    v: usize,
)
    requires
        s.spec_state() == ThetastarState::<usize, usize>::VisitingProbeOnLineOfSight(v),
        s.spec_edge_ids().len() > 0,
        s.spec_predecessors().contains_key(v),
        before.spec_visit_navnode(
            s.spec_graph(),
            s.spec_predecessors()[v],
            s.spec_tracker(),
        ).1.spec_place_probe_to_navnode(
            s.spec_graph(),
            s.spec_graph().spec_edge_target(s.spec_edge_ids().last()),
        ).0 is None,
        thetastar_step_done(s, t, r, before, after),
    ensures
        after == before.spec_visit_navnode(
            s.spec_graph(),
            s.spec_predecessors()[v],
            s.spec_tracker(),
        ).1.spec_place_probe_to_navnode(
            s.spec_graph(),
            s.spec_graph().spec_edge_target(s.spec_edge_ids().last()),
        ).1.spec_visit_navnode(s.spec_graph(), v, s.spec_tracker()).1,
        exists|x: S|
            #[trigger] x.spec_visit_navnode(s.spec_graph(), v, s.spec_tracker()).1 == after,
        t.spec_state() == ThetastarState::<usize, usize>::VisitingProbeOnNavedge(
            v,
            s.spec_edge_ids().last(),
        ),
        t.spec_scores() == s.spec_scores(),
{
    let x = before.spec_visit_navnode(
        s.spec_graph(),
        s.spec_predecessors()[v],
        s.spec_tracker(),
    ).1.spec_place_probe_to_navnode(
        s.spec_graph(),
        s.spec_graph().spec_edge_target(s.spec_edge_ids().last()),
    ).1;
    assert(x.spec_visit_navnode(s.spec_graph(), v, s.spec_tracker()).1 == after);
}

/// A navnode that a probe reaches with a better score is put on the frontier with its
/// key the sum of the score just recorded for it and the estimate that the strategy gave
/// for it in the step's last call: the key is g(navnode) + h(navnode), h being exactly
/// the strategy's estimate. A probe that finds no better score leaves the frontier and
/// the scores as they were.
pub proof fn lemma_thetastar_frontier_key<G: MakeEdgeRef, R, S: ThetastarStrategy<G, R>>(
    s: ThetastarStepper<G>,
    t: ThetastarStepper<G>,
    r: Result<ControlFlow<(u64, Vec<usize>, R), ThetastarState<usize, usize>>, ThetastarError>,
    before: S,
    after: S,
    to: usize,
)
    requires
        thetastar_step_done(s, t, r, before, after),
        t.spec_frontier().len() > s.spec_frontier().len(),
        s.spec_state() matches ThetastarState::VisitingProbeOnNavedge(_, e) ==> to
            == s.spec_graph().spec_edge_target(e),
        s.spec_state() is VisitingProbeOnLineOfSight ==> to == s.spec_graph().spec_edge_target(
            s.spec_edge_ids().last(),
        ),
    ensures
        t.spec_scores().contains_key(to),
        t.spec_scores()[to] < s.spec_scores()[to] || !s.spec_scores().contains_key(to),
        exists|last: S|
            #![trigger last.spec_estimate_cost_to_goal(s.spec_graph(), to)]
            {
                let estimated = last.spec_estimate_cost_to_goal(s.spec_graph(), to);
                &&& after == estimated.1
                &&& t.spec_frontier() == s.spec_frontier().push(
                    MinScored(t.spec_scores()[to].saturating_add(estimated.0), to),
                )
            },
{
    let graph = s.spec_graph();
    match s.spec_state() {
        ThetastarState::VisitingProbeOnLineOfSight(v) => {
            let parent = s.spec_predecessors()[v];
            let at_parent = before.spec_visit_navnode(graph, parent, s.spec_tracker()).1;
            let probed = at_parent.spec_place_probe_to_navnode(graph, to);
            let last = probed.1;
            assert(after == last.spec_estimate_cost_to_goal(graph, to).1);
        },
        ThetastarState::VisitingProbeOnNavedge(v, e) => {
            let probed = before.spec_place_probe_to_navnode(graph, to);
            let last = probed.1;
            assert(after == last.spec_estimate_cost_to_goal(graph, to).1);
        },
        _ => {},
    }
}

} // verus!
