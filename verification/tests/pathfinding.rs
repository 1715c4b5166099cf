use core::cmp::Ordering;
use core::ops::ControlFlow;
use topola::router::astar::{
    AstarContinueStatus, AstarError, AstarStepper, AstarStrategy, EdgeListGraph, EdgeReference,
    MinScored, PathTracker,
};
use topola::router::thetastar::{ThetastarError, ThetastarState, ThetastarStepper, ThetastarStrategy};
use topola::stepper::{EstimateProgress, Step};

/// Undirected edges `(a, b, cost)` of a small weighted graph, stored as two directed edges.
fn graph_with_costs(edges: &[(usize, usize, u64)]) -> (EdgeListGraph, Vec<u64>) {
    let mut list = Vec::new();
    let mut costs = Vec::new();
    for &(a, b, c) in edges {
        list.push((a, b));
        costs.push(c);
        list.push((b, a));
        costs.push(c);
    }
    (EdgeListGraph { edges: list }, costs)
}

#[derive(Clone)]
struct CostTable {
    costs: Vec<u64>,
    goal: usize,
    probes: usize,
    visits: Vec<usize>,
}

impl AstarStrategy<EdgeListGraph, usize> for CostTable {
    fn spec_visit_navnode(
        &self,
        _graph: EdgeListGraph,
        node: usize,
        _tracker: PathTracker,
    ) -> (Result<Option<usize>, ()>, Self) {
        let mut after = self.clone();
        after.visits.push(node);
        (Ok(if node == self.goal { Some(node) } else { None }), after)
    }

    fn spec_place_probe_at_navedge(
        &self,
        _graph: EdgeListGraph,
        edge: EdgeReference,
    ) -> (Option<u64>, Self) {
        let mut after = self.clone();
        after.probes += 1;
        (Some(self.costs[edge.id]), after)
    }

    fn spec_remove_probe(&self, _graph: EdgeListGraph) -> Self {
        let mut after = self.clone();
        after.probes -= 1;
        after
    }

    fn spec_estimate_cost(&self, _graph: EdgeListGraph, _node: usize) -> (u64, Self) {
        (0, self.clone())
    }

    fn visit_navnode(
        &mut self,
        _graph: &EdgeListGraph,
        node: usize,
        _tracker: &PathTracker,
    ) -> Result<Option<usize>, ()> {
        self.visits.push(node);
        Ok(if node == self.goal { Some(node) } else { None })
    }

    fn place_probe_at_navedge(&mut self, _graph: &EdgeListGraph, edge: EdgeReference) -> Option<u64> {
        self.probes += 1;
        Some(self.costs[edge.id])
    }

    fn remove_probe(&mut self, _graph: &EdgeListGraph) {
        self.probes -= 1;
    }

    fn estimate_cost(&mut self, _graph: &EdgeListGraph, _node: usize) -> u64 {
        0
    }
}

fn run_astar(
    stepper: &mut AstarStepper<EdgeListGraph>,
    strategy: &mut CostTable,
) -> Result<(u64, Vec<usize>, usize), AstarError> {
    loop {
        match stepper.step(strategy)? {
            ControlFlow::Break(found) => return Ok(found),
            ControlFlow::Continue(_) => {}
        }
    }
}

#[test]
fn astar_finds_cheapest_path() {
    // 0 -1- 1 -1- 2 -1- 3, and a direct but expensive edge 0 -10- 3
    let (graph, costs) = graph_with_costs(&[(0, 1, 1), (1, 2, 1), (2, 3, 1), (0, 3, 10)]);
    let mut strategy = CostTable { costs, goal: 3, probes: 0, visits: vec![] };
    let mut stepper = AstarStepper::new(graph, 0, &mut strategy);
    let (cost, path, goal) = run_astar(&mut stepper, &mut strategy).unwrap();
    assert_eq!(cost, 3);
    assert_eq!(path, vec![0, 1, 2, 3]);
    assert_eq!(goal, 3);
}

#[test]
fn astar_reports_not_found() {
    let (graph, costs) = graph_with_costs(&[(0, 1, 2), (2, 3, 1)]);
    let mut strategy = CostTable { costs, goal: 3, probes: 0, visits: vec![] };
    let mut stepper = AstarStepper::new(graph, 0, &mut strategy);
    assert!(matches!(run_astar(&mut stepper, &mut strategy), Err(AstarError::NotFound)));
    // both reachable nodes were scored; the unreachable ones were not
    assert_eq!(stepper.scores().get(&1), Some(&2));
    assert_eq!(stepper.scores().get(&3), None);
}

#[test]
fn astar_step_statuses() {
    // a triangle: 0 -1- 1, 0 -5- 2, 1 -1- 2
    let (graph, costs) = graph_with_costs(&[(0, 1, 1), (0, 2, 5), (1, 2, 1)]);
    let mut strategy = CostTable { costs, goal: 2, probes: 0, visits: vec![] };
    let mut stepper = AstarStepper::new(graph, 0, &mut strategy);
    let mut statuses = vec![];
    let found = loop {
        match stepper.step(&mut strategy).unwrap() {
            ControlFlow::Continue(status) => statuses.push(status),
            ControlFlow::Break(found) => break found,
        }
    };
    assert_eq!(statuses, vec![AstarContinueStatus::Visited, AstarContinueStatus::Probing, AstarContinueStatus::Probing, AstarContinueStatus::Visited, AstarContinueStatus::ProbingButDiscarded, AstarContinueStatus::Probing]);
    assert_eq!(found, (2, vec![0, 1, 2], 2));
    assert_eq!(strategy.visits, vec![0, 1, 2]);
    // every probe placed, the discarded one included, was removed by the next step
    assert_eq!(strategy.probes, 0);
}

#[test]
fn astar_removes_discarded_probe_next() {
    // the triangle again; the probe from 1 back to 0 is discarded
    let (graph, costs) = graph_with_costs(&[(0, 1, 1), (0, 2, 5), (1, 2, 1)]);
    let mut strategy = CostTable { costs, goal: 2, probes: 0, visits: vec![] };
    let mut stepper = AstarStepper::new(graph, 0, &mut strategy);
    loop {
        match stepper.step(&mut strategy).unwrap() {
            ControlFlow::Continue(AstarContinueStatus::ProbingButDiscarded) => break,
            ControlFlow::Continue(_) => {}
            ControlFlow::Break(_) => panic!("the discarded probe comes first"),
        }
    }
    assert_eq!(strategy.probes, 1);
    let status = stepper.step(&mut strategy).unwrap();
    assert_eq!(status, ControlFlow::Continue(AstarContinueStatus::Probing));
    // the discarded probe was removed before the next one was placed
    assert_eq!(strategy.probes, 1);
}

#[test]
fn astar_skips_stale_frontier_entries() {
    // the same triangle, searched for a node that does not exist
    let (graph, costs) = graph_with_costs(&[(0, 1, 1), (0, 2, 5), (1, 2, 1)]);
    let mut strategy = CostTable { costs, goal: 9, probes: 0, visits: vec![] };
    let mut stepper = AstarStepper::new(graph, 0, &mut strategy);
    let mut statuses = vec![];
    let err = loop {
        match stepper.step(&mut strategy) {
            Ok(ControlFlow::Continue(status)) => statuses.push(status),
            Ok(ControlFlow::Break(_)) => panic!("there is no goal"),
            Err(err) => break err,
        }
    };
    assert_eq!(
        statuses,
        vec![
            AstarContinueStatus::Visited,
            AstarContinueStatus::Probing,
            AstarContinueStatus::Probing,
            AstarContinueStatus::Visited,
            AstarContinueStatus::ProbingButDiscarded,
            AstarContinueStatus::Probing,
            AstarContinueStatus::Visited,
            AstarContinueStatus::ProbingButDiscarded,
            AstarContinueStatus::ProbingButDiscarded,
            AstarContinueStatus::VisitSkipped,
        ]
    );
    assert_eq!(err, AstarError::NotFound);
    assert_eq!(stepper.scores().get(&2), Some(&2));
    assert_eq!(stepper.estimate_scores().get(&2), Some(&2));
}

#[test]
fn min_scored_orders_lower_scores_higher() {
    assert_eq!(MinScored(1u64, 'a').cmp(&MinScored(2u64, 'b')), Ordering::Greater);
    assert_eq!(MinScored(3u64, 'a').cmp(&MinScored(2u64, 'b')), Ordering::Less);
    assert_eq!(MinScored(2u64, 'a').cmp(&MinScored(2u64, 'b')), Ordering::Equal);
}

/// Nodes on a line at positions `x`; every node sees every other, so Theta* draws
/// straight from the start to the goal.
#[derive(Clone)]
struct LineOfSight {
    xs: Vec<u64>,
    goal: usize,
    current: usize,
}

impl ThetastarStrategy<EdgeListGraph, ()> for LineOfSight {
    fn spec_visit_navnode(
        &self,
        _graph: EdgeListGraph,
        navnode: usize,
        _tracker: PathTracker,
    ) -> (Result<Option<()>, ()>, Self) {
        let mut after = self.clone();
        after.current = navnode;
        (Ok(if navnode == self.goal { Some(()) } else { None }), after)
    }

    fn spec_place_probe_to_navnode(&self, _graph: EdgeListGraph, probed: usize) -> (Option<u64>, Self) {
        (Some(self.xs[self.current].abs_diff(self.xs[probed])), self.clone())
    }

    fn spec_remove_probe(&self, _graph: EdgeListGraph) -> Self {
        self.clone()
    }

    fn spec_estimate_cost_to_goal(&self, _graph: EdgeListGraph, navnode: usize) -> (u64, Self) {
        (self.xs[navnode].abs_diff(self.xs[self.goal]), self.clone())
    }

    fn visit_navnode(
        &mut self,
        _graph: &EdgeListGraph,
        navnode: usize,
        _tracker: &PathTracker,
    ) -> Result<Option<()>, ()> {
        self.current = navnode;
        Ok(if navnode == self.goal { Some(()) } else { None })
    }

    fn place_probe_to_navnode(&mut self, _graph: &EdgeListGraph, probed: usize) -> Option<u64> {
        Some(self.xs[self.current].abs_diff(self.xs[probed]))
    }

    fn remove_probe(&mut self, _graph: &EdgeListGraph) {}

    fn estimate_cost_to_goal(&mut self, _graph: &EdgeListGraph, navnode: usize) -> u64 {
        self.xs[navnode].abs_diff(self.xs[self.goal])
    }
}

#[test]
fn thetastar_shortcuts_through_line_of_sight() {
    // a chain 0 - 1 - 2 - 3 at positions 0, 4, 6, 10
    let (graph, _) = graph_with_costs(&[(0, 1, 0), (1, 2, 0), (2, 3, 0)]);
    let mut strategy = LineOfSight { xs: vec![0, 4, 6, 10], goal: 3, current: 0 };
    let mut stepper = ThetastarStepper::new(graph, 0, &mut strategy);
    assert_eq!(*stepper.state(), ThetastarState::Scanning);
    let (cost, path, ()) = loop {
        match stepper.step(&mut strategy).unwrap() {
            ControlFlow::Continue(state) => assert_eq!(state, *stepper.state()),
            ControlFlow::Break(found) => break found,
        }
    };
    assert_eq!(cost, 10);
    // every node after the first was drawn to straight from the start
    assert_eq!(path, vec![0, 3]);
    let progress = stepper.estimate_progress();
    assert_eq!(*progress.maximum(), 10);
    assert_eq!(*progress.value(), 10);
}

#[test]
fn thetastar_reports_not_found() {
    let (graph, _) = graph_with_costs(&[(0, 1, 0)]);
    let mut strategy = LineOfSight { xs: vec![0, 4, 6], goal: 2, current: 0 };
    let mut stepper = ThetastarStepper::new(graph, 0, &mut strategy);
    let outcome = loop {
        match stepper.step(&mut strategy) {
            Ok(ControlFlow::Continue(_)) => {}
            Ok(ControlFlow::Break(_)) => panic!("no path exists"),
            Err(err) => break err,
        }
    };
    assert_eq!(outcome, ThetastarError::NotFound);
    assert_eq!(stepper.scores().get(&1), Some(&4));
}
