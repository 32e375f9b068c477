use mopper::base::neighbour_space::{NeighbourhoodIndirect, NeighbourhoodIndirectRandom};
use mopper::base::rng::{Rng, Splitmix64};
use mopper::base::stop_condition::{RdtscTimer, RdtscTimerInstant, StdTimer, StopCondition};
use mopper::base::tree_space::{Tree, TreeGuided, TreeIndirect, TreeIndirectGuided};
use mopper::base::{
    Objective, Problem, ProblemGenerator, Reduction, SimpleSolutionKeeper, SolutionKeeper, Solver,
};
use mopper::solver::beam_search::{expand, select_children, BeamSearch};
use mopper::solver::local_search::{FirstImprovingRandomLocalSearch, SteepestDescentLocalSearch};
use mopper::solver::microcanonical_annealing::{demon_move, MicrocanonicalAnnealing};
use mopper::solver::ranking::guide_order;
use mopper::solver::simulated_annealing::{CoolingSchedule, SimulatedAnnealing};
use mopper::testing::solver_stats::SolverStats;
use mopper::testing::{run_seeds, test_single, SingleTestData, UNBOUNDED, UNFEAS};
use mopper::utils::bloom_filter::BloomFilter;
use mopper::utils::fingerprint::Fingerprint;
use mopper::utils::set::{AlwaysEmptySet, DuplicateSet};
use std::cell::RefCell;
use std::rc::Rc;
use std::cmp::Ordering;

#[derive(Clone, Copy, Debug, PartialEq)]
struct Cost(i64);

impl Objective for Cost {
    fn unfeas() -> Self {
        Cost(i64::MAX)
    }
    fn unbounded() -> Self {
        Cost(i64::MIN)
    }
    fn is_feas(&self) -> bool {
        self.0 != i64::MAX
    }
    fn is_bounded(&self) -> bool {
        self.0 != i64::MIN
    }
    fn less(&self, other: &Self) -> bool {
        self.0 < other.0
    }
    fn value(&self) -> i64 {
        self.0
    }
}

/// Never fires.
#[derive(Clone)]
struct Never;

impl StopCondition<Cost> for Never {
    fn stop(&mut self, _primal: Cost, _dual: Cost) -> bool {
        false
    }
}

/// Fires at the poll after `0` polls, and counts the polls.
#[derive(Clone)]
struct After(u64);

impl StopCondition<Cost> for After {
    fn stop(&mut self, _primal: Cost, _dual: Cost) -> bool {
        if self.0 == 0 {
            true
        } else {
            self.0 -= 1;
            false
        }
    }
}

/// Yields the words it was given, in turn, then zeros.
#[derive(Clone)]
struct Scripted(Vec<u64>, usize);

impl Rng for Scripted {
    fn next_u64(&mut self) -> u64 {
        let w = self.0.get(self.1).copied().unwrap_or(0);
        self.1 += 1;
        w
    }
}

type Stats<P> = SolverStats<StdTimer, P, SimpleSolutionKeeper<P>>;

fn primal_log<P: Problem<Obj = Cost>>(stats: &Stats<P>) -> Vec<i64> {
    stats.events.iter().map(|e| e.primal_bound.0).collect()
}

// ---------------------------------------------------------------- parabola

#[derive(Clone)]
struct Parabola;

impl Problem for Parabola {
    type Sol = i64;
    type Obj = Cost;
    fn obj(&self, sol: &i64) -> Cost {
        if (-5..=5).contains(sol) {
            Cost(sol * sol)
        } else {
            Cost::unfeas()
        }
    }
    fn is_feasible(&self, sol: &i64) -> bool {
        (-5..=5).contains(sol)
    }
}

#[derive(Clone)]
struct Steps;

impl NeighbourhoodIndirect<Parabola> for Steps {
    type NeighbourId = i64;
    fn neighbourhood_id(&self, _p: &Parabola, node: &i64) -> Vec<i64> {
        [-1, 1].into_iter().filter(|d| (-5..=5).contains(&(node + d))).collect()
    }
    fn neighbour_obj(&self, p: &Parabola, node: &i64, nid: &i64) -> Cost {
        p.obj(&(node + nid))
    }
    fn neighbour(&self, _p: &Parabola, node: i64, nid: i64) -> i64 {
        node + nid
    }
}

#[test]
fn steepest_descent_on_a_parabola() {
    let mut engine = SteepestDescentLocalSearch::new(Steps, (4, Cost(16)));
    let mut stats: Stats<Parabola> = SolverStats::new(SimpleSolutionKeeper::default(), Parabola);
    engine.solve(Parabola, &mut stats, Never);
    assert_eq!(primal_log(&stats), vec![16, 9, 4, 1, 0]);
    assert_eq!(stats.best_solution(), Some((0, Cost(0))));
    assert!(engine.initial_solution.is_none());
    // four rounds that move and one that finds the local optimum
    assert_eq!(stats.its, 5);
}

#[test]
fn steepest_descent_from_the_left() {
    let mut engine = SteepestDescentLocalSearch::new(Steps, (-5, Cost(25)));
    let mut sk = SimpleSolutionKeeper::<Parabola>::default();
    engine.solve(Parabola, &mut sk, Never);
    assert_eq!(sk.best_solution(), Some((0, Cost(0))));
}

#[test]
fn steepest_descent_stops_when_told() {
    let mut engine = SteepestDescentLocalSearch::new(Steps, (4, Cost(16)));
    let mut stats: Stats<Parabola> = SolverStats::new(SimpleSolutionKeeper::default(), Parabola);
    engine.solve(Parabola, &mut stats, After(2));
    assert_eq!(primal_log(&stats), vec![16, 9, 4]);
    assert_eq!(stats.best_solution(), Some((2, Cost(4))));
}

#[test]
fn steepest_descent_keeps_what_the_keeper_held() {
    let mut engine = SteepestDescentLocalSearch::new(Steps, (1, Cost(1)));
    let mut sk = SimpleSolutionKeeper::<Parabola>::default();
    sk.add_solution(&77, Cost(-3));
    engine.solve(Parabola, &mut sk, Never);
    assert_eq!(sk.best_solution(), Some((77, Cost(-3))));
}

#[derive(Clone)]
struct Nowhere;

impl NeighbourhoodIndirect<Parabola> for Nowhere {
    type NeighbourId = i64;
    fn neighbourhood_id(&self, _p: &Parabola, _node: &i64) -> Vec<i64> {
        Vec::new()
    }
    fn neighbour_obj(&self, p: &Parabola, node: &i64, nid: &i64) -> Cost {
        p.obj(&(node + nid))
    }
    fn neighbour(&self, _p: &Parabola, node: i64, nid: i64) -> i64 {
        node + nid
    }
}

#[test]
fn steepest_descent_ends_at_once_without_neighbours() {
    let mut engine = SteepestDescentLocalSearch::new(Nowhere, (4, Cost(16)));
    let mut stats: Stats<Parabola> = SolverStats::new(SimpleSolutionKeeper::default(), Parabola);
    engine.solve(Parabola, &mut stats, Never);
    assert_eq!(primal_log(&stats), vec![16]);
    assert_eq!(stats.its, 1);
    assert_eq!(
        SteepestDescentLocalSearch::<Parabola, Nowhere>::steepest_move(
            &Nowhere,
            &Parabola,
            &4,
            Cost(16)
        ),
        None
    );
}

/// A neighbourhood with a tie: the first of the best moves is to be taken.
#[derive(Clone)]
struct Jumps(Vec<i64>);

impl NeighbourhoodIndirect<Parabola> for Jumps {
    type NeighbourId = i64;
    fn neighbourhood_id(&self, _p: &Parabola, _node: &i64) -> Vec<i64> {
        self.0.clone()
    }
    fn neighbour_obj(&self, p: &Parabola, node: &i64, nid: &i64) -> Cost {
        p.obj(&(node + nid))
    }
    fn neighbour(&self, _p: &Parabola, node: i64, nid: i64) -> i64 {
        node + nid
    }
}

#[test]
fn steepest_move_is_the_first_of_the_best() {
    type Engine = SteepestDescentLocalSearch<Parabola, Jumps>;
    // from 3: 3-1=2 (4), 3-5=-2 (4), 3-2=1 (1), 3-4=-1 (1), 3+1=4 (16), out of range
    let ns = Jumps(vec![-1, -5, -2, -4, 1, 9]);
    assert_eq!(Engine::steepest_move(&ns, &Parabola, &3, Cost(9)), Some((-2, Cost(1))));
    // nothing improves strictly on an objective of 1
    assert_eq!(Engine::steepest_move(&ns, &Parabola, &3, Cost(1)), None);
    let flat = Jumps(vec![0, 0]);
    assert_eq!(Engine::steepest_move(&flat, &Parabola, &3, Cost(9)), None);
}

// ------------------------------------------------------- random neighbours

/// Moves by the drawn word read as a signed step.
#[derive(Clone)]
struct DrawnStep;

impl NeighbourhoodIndirectRandom<Parabola> for DrawnStep {
    type NeighbourId = i64;
    fn random_neighbour_id<R: Rng>(&self, _p: &Parabola, _node: &i64, rng: &mut R) -> i64 {
        rng.next_u64() as i64
    }
    fn random_neighbour(&self, _p: &Parabola, node: i64, nid: i64) -> i64 {
        node + nid
    }
    fn neighbour_obj(&self, _p: &Parabola, node: &i64, nid: &i64) -> Cost {
        // the value is the solution itself, so that a step is the change in value
        Cost(node + nid)
    }
}

fn script(steps: &[i64]) -> Scripted {
    Scripted(steps.iter().map(|s| *s as u64).collect(), 0)
}

#[test]
fn first_improving_takes_only_strict_improvements() {
    let rng = script(&[2, 0, -1, 5, -3, -1]);
    let mut engine = FirstImprovingRandomLocalSearch::new(DrawnStep, (10, Cost(10)), rng);
    let mut stats: Stats<Parabola> = SolverStats::new(SimpleSolutionKeeper::default(), Parabola);
    engine.solve(Parabola, &mut stats, After(6));
    // taken: -1 (9), -3 (6), -1 (5); the initial solution is not reported
    assert_eq!(primal_log(&stats), vec![9, 6, 5]);
    assert_eq!(stats.best_solution(), Some((5, Cost(5))));
    assert_eq!(stats.its, 6);
    assert_eq!(engine.rng.1, 6);
}

#[test]
fn first_improving_reports_nothing_without_an_improvement() {
    let rng = script(&[1, 2, 0]);
    let mut engine = FirstImprovingRandomLocalSearch::new(DrawnStep, (10, Cost(10)), rng);
    let mut stats: Stats<Parabola> = SolverStats::new(SimpleSolutionKeeper::default(), Parabola);
    engine.solve(Parabola, &mut stats, After(3));
    assert!(primal_log(&stats).is_empty());
    assert!(stats.best_solution().is_none());
}

#[test]
fn cloned_engines_with_cloned_generators_agree() {
    let engine = FirstImprovingRandomLocalSearch::new(
        DrawnStep,
        (1_000_000, Cost(1_000_000)),
        Splitmix64::from_u64(7),
    );
    let mut first = engine.clone();
    let mut second = engine.clone();
    let mut a: Stats<Parabola> = SolverStats::new(SimpleSolutionKeeper::default(), Parabola);
    let mut b: Stats<Parabola> = SolverStats::new(SimpleSolutionKeeper::default(), Parabola);
    first.solve(Parabola, &mut a, After(500));
    second.solve(Parabola, &mut b, After(500));
    assert!(!primal_log(&a).is_empty());
    assert_eq!(primal_log(&a), primal_log(&b));
    let its = |s: &Stats<Parabola>| s.events.iter().map(|e| e.it).collect::<Vec<_>>();
    assert_eq!(its(&a), its(&b));
    assert_eq!(first.rng.0, second.rng.0);
    assert_eq!(a.best_solution(), b.best_solution());
}

// --------------------------------------------------- microcanonical demon

#[test]
fn demon_pays_and_is_paid() {
    // obj 10, energy 3: a rise of 2 is paid for
    assert_eq!(demon_move(3, 10, 12), Some(1));
    // energy 1 does not cover a rise of 2
    assert_eq!(demon_move(1, 12, 14), None);
    // a fall of 4 pays the demon
    assert_eq!(demon_move(1, 12, 8), Some(5));
    // the sum of value and energy stays at 13
    assert_eq!(10 + 3, 12 + 1);
    assert_eq!(12 + 1, 8 + 5);
}

#[test]
fn demon_without_energy_accepts_no_rise() {
    assert_eq!(demon_move(0, 10, 11), None);
    assert_eq!(demon_move(0, 10, 10), Some(0));
    assert_eq!(demon_move(0, 10, 8), Some(2));
    assert_eq!(demon_move(0, i64::MIN, i64::MAX), None);
    assert_eq!(demon_move(0, i64::MAX, i64::MIN), Some(u64::MAX as i128));
    assert_eq!(demon_move(5, 0, 5), Some(0));
}

#[test]
fn microcanonical_annealing_follows_the_demon() {
    let rng = script(&[2, 2, -4]);
    let mut engine = MicrocanonicalAnnealing::new(DrawnStep, (10, Cost(10)), 3, rng);
    let mut stats: Stats<Parabola> = SolverStats::new(SimpleSolutionKeeper::default(), Parabola);
    engine.solve(Parabola, &mut stats, After(3));
    // reported: the start (10), the rise to 12, the fall to 8
    let reported: Vec<i64> = vec![10, 10, 8];
    assert_eq!(primal_log(&stats), reported);
    assert_eq!(stats.best_solution(), Some((8, Cost(8))));
    assert_eq!(engine.rng.1, 3);
}

#[test]
fn microcanonical_annealing_without_energy_only_descends() {
    let rng = script(&[1, 3, -2, 1, 0, -1]);
    let mut engine = MicrocanonicalAnnealing::new(DrawnStep, (10, Cost(10)), 0, rng);
    let mut sk = SimpleSolutionKeeper::<Parabola>::default();
    engine.solve(Parabola, &mut sk, After(3));
    // 1 and 3 are refused, -2 is taken
    assert_eq!(sk.best_solution(), Some((8, Cost(8))));
}

// ------------------------------------------------------ simulated annealing

/// A fixed temperature with the Metropolis rule.
#[derive(Clone)]
struct Fixed(f64);

impl CoolingSchedule for Fixed {
    type Temperature = f64;
    fn temperature(&mut self, _obj: i64) -> f64 {
        self.0
    }
    fn is_positive(t: f64) -> bool {
        t > 0.0
    }
    fn accepts(t: f64, delta: i128, draw: u64) -> bool {
        (draw as f64 / u64::MAX as f64) < (-(delta as f64) / t).exp()
    }
}

fn unit(x: f64) -> u64 {
    (x * u64::MAX as f64) as u64
}

/// Proposes a rise of 2, whatever is drawn; draws nothing.
#[derive(Clone)]
struct RiseByTwo;

impl NeighbourhoodIndirectRandom<Parabola> for RiseByTwo {
    type NeighbourId = i64;
    fn random_neighbour_id<R: Rng>(&self, _p: &Parabola, _node: &i64, _rng: &mut R) -> i64 {
        2
    }
    fn random_neighbour(&self, _p: &Parabola, node: i64, nid: i64) -> i64 {
        node + nid
    }
    fn neighbour_obj(&self, _p: &Parabola, node: &i64, nid: &i64) -> Cost {
        Cost(node + nid)
    }
}

#[test]
fn simulated_annealing_accepts_below_the_metropolis_bound() {
    // delta 2 at temperature 2: accepted with probability exp(-1) = 0.3678794...
    let rng = Scripted(vec![unit(0.3)], 0);
    let mut engine = SimulatedAnnealing::new(RiseByTwo, (10, Cost(10)), rng, Fixed(2.0));
    let mut sk = SimpleSolutionKeeper::<Parabola>::default();
    engine.solve(Parabola, &mut sk, After(1));
    assert_eq!(sk.best_solution(), Some((12, Cost(12))));
    assert_eq!(engine.rng.1, 1);
}

#[test]
fn simulated_annealing_rejects_above_the_metropolis_bound() {
    let rng = Scripted(vec![unit(0.5)], 0);
    let mut engine = SimulatedAnnealing::new(RiseByTwo, (10, Cost(10)), rng, Fixed(2.0));
    let mut sk = SimpleSolutionKeeper::<Parabola>::default();
    engine.solve(Parabola, &mut sk, After(1));
    assert!(sk.best_solution().is_none());
    assert_eq!(engine.rng.1, 1);
}

#[test]
fn simulated_annealing_takes_a_fall_without_a_draw() {
    let rng = script(&[-4]);
    let mut engine = SimulatedAnnealing::new(DrawnStep, (10, Cost(10)), rng, Fixed(2.0));
    let mut sk = SimpleSolutionKeeper::<Parabola>::default();
    engine.solve(Parabola, &mut sk, After(1));
    assert_eq!(sk.best_solution(), Some((6, Cost(6))));
    // one word for the move, none for the acceptance
    assert_eq!(engine.rng.1, 1);
}

#[test]
fn simulated_annealing_ends_at_once_at_temperature_zero() {
    let rng = script(&[-4, -4, -4]);
    let mut engine = SimulatedAnnealing::new(DrawnStep, (10, Cost(10)), rng, Fixed(0.0));
    let mut stats: Stats<Parabola> = SolverStats::new(SimpleSolutionKeeper::default(), Parabola);
    engine.solve(Parabola, &mut stats, Never);
    assert!(stats.best_solution().is_none());
    assert!(primal_log(&stats).is_empty());
    assert_eq!(engine.rng.1, 0);
    assert_eq!(stats.its, 1);
}

// -------------------------------------------------------------- beam search

/// A tree given by its nodes: for each the children, the goodness and, for a
/// leaf, the objective.
#[derive(Clone)]
struct Listed {
    children: Vec<Vec<usize>>,
    goodness: Vec<i64>,
    objective: Vec<Option<i64>>,
}

#[derive(Clone)]
struct Named(Listed);

impl Problem for Named {
    type Sol = usize;
    type Obj = Cost;
    fn obj(&self, sol: &usize) -> Cost {
        self.0.objective[*sol].map_or(Cost::unfeas(), Cost)
    }
    fn is_feasible(&self, sol: &usize) -> bool {
        self.0.objective[*sol].is_some()
    }
}

#[derive(Clone, Debug, PartialEq)]
struct Node(usize);

impl Fingerprint for Node {
    fn word(&self) -> u64 {
        self.0 as u64
    }
}

impl Tree<Named> for Listed {
    type Node = Node;
    fn root(&self) -> Node {
        Node(0)
    }
    fn is_leaf(&self, n: &Node) -> bool {
        self.children[n.0].is_empty()
    }
    fn objective(&self, n: &Node) -> Option<Cost> {
        self.objective[n.0].map(Cost)
    }
    fn to_solution(&self, n: &Node) -> Option<usize> {
        self.objective[n.0].map(|_| n.0)
    }
    fn from(p: &Named) -> Self {
        p.0.clone()
    }
}

impl TreeIndirect<Named> for Listed {
    type ChildId = usize;
    fn children_id(&self, n: &Node) -> Vec<usize> {
        (0..self.children[n.0].len()).collect()
    }
    fn child(&self, n: &Node, cid: &usize) -> Node {
        Node(self.children[n.0][*cid])
    }
}

impl TreeGuided<Named> for Listed {
    type Guide = Cost;
    fn goodness(&self, n: &Node) -> Cost {
        Cost(self.goodness[n.0])
    }
}

impl TreeIndirectGuided<Named> for Listed {
    fn child_goodness(&self, n: &Node, cid: &usize) -> Cost {
        Cost(self.goodness[self.children[n.0][*cid]])
    }
}

/// root 0 with the children A = 1 (goodness 3) and B = 2 (goodness 1);
/// B has the leaf C = 3 (objective 7), A has the leaf D = 4 (objective 5).
fn two_paths() -> Named {
    Named(Listed {
        children: vec![vec![1, 2], vec![4], vec![3], vec![], vec![]],
        goodness: vec![0, 3, 1, 0, 0],
        objective: vec![None, None, None, Some(7), Some(5)],
    })
}

#[test]
fn greedy_beam_follows_the_guide() {
    let mut engine = BeamSearch::<Named, Listed>::new(1);
    let mut sk = SimpleSolutionKeeper::<Named>::default();
    engine.solve(two_paths(), &mut sk, Never);
    assert_eq!(sk.best_solution(), Some((3, Cost(7))));
}

#[test]
fn beam_of_two_finds_both_leaves() {
    let mut engine = BeamSearch::<Named, Listed>::new(2);
    let mut stats: Stats<Named> = SolverStats::new(SimpleSolutionKeeper::default(), two_paths());
    engine.solve(two_paths(), &mut stats, Never);
    // the leaves are reported in beam order: C (7) before D (5)
    assert_eq!(primal_log(&stats), vec![7, 5]);
    assert_eq!(stats.best_solution(), Some((4, Cost(5))));
    // root, {B, A}, {C, D}
    assert_eq!(stats.its, 3);
}

#[test]
fn beam_search_stops_when_told() {
    let mut engine = BeamSearch::<Named, Listed>::new(2);
    let mut sk = SimpleSolutionKeeper::<Named>::default();
    engine.solve(two_paths(), &mut sk, After(2));
    assert!(sk.best_solution().is_none());
}

#[test]
fn beam_search_without_a_leaf_in_reach_finds_nothing() {
    // a root whose only child is a leaf that the stop condition cuts off
    let mut engine = BeamSearch::<Named, Listed>::new(3);
    let mut sk = SimpleSolutionKeeper::<Named>::default();
    engine.solve(two_paths(), &mut sk, After(0));
    assert!(sk.best_solution().is_none());
}

/// root 0 with five children of goodness 5, 2, 9, 2, 7; all leaves.
fn fan() -> Named {
    Named(Listed {
        children: vec![vec![1, 2, 3, 4, 5], vec![], vec![], vec![], vec![], vec![]],
        goodness: vec![0, 5, 2, 9, 2, 7],
        objective: vec![None, Some(50), Some(20), Some(90), Some(21), Some(70)],
    })
}

#[test]
fn expansion_lists_the_candidates_in_beam_order() {
    let p = fan();
    let ts = <Listed as Tree<Named>>::from(&p);
    let mut sk = SimpleSolutionKeeper::<Named>::default();
    let cands = expand(&ts, &vec![Node(0)], &mut sk);
    assert_eq!(
        cands,
        vec![(Cost(5), 0, 0), (Cost(2), 0, 1), (Cost(9), 0, 2), (Cost(2), 0, 3), (Cost(7), 0, 4)]
    );
    assert!(sk.best_solution().is_none());
    let leaves = vec![Node(3), Node(0), Node(2)];
    let cands = expand(&ts, &leaves, &mut sk);
    assert_eq!(cands.len(), 5);
    assert!(cands.iter().all(|c| c.1 == 1));
    assert_eq!(sk.best_solution(), Some((2, Cost(20))));
}

#[test]
fn selection_takes_the_first_in_rank_up_to_the_width() {
    let p = fan();
    let ts = <Listed as Tree<Named>>::from(&p);
    let beam = vec![Node(0)];
    let ranked = vec![(Cost(2), 0, 1), (Cost(2), 0, 3), (Cost(5), 0, 0)];
    let mut set = AlwaysEmptySet;
    assert_eq!(
        select_children(&ts, &beam, &ranked, &mut set, 2),
        vec![Node(2), Node(4)]
    );
    assert_eq!(
        select_children(&ts, &beam, &ranked, &mut set, 5),
        vec![Node(2), Node(4), Node(1)]
    );
    assert!(select_children(&ts, &beam, &Vec::new(), &mut set, 5).is_empty());
    assert!(select_children(&ts, &beam, &ranked, &mut set, 0).is_empty());
}

#[test]
fn beam_keeps_the_smallest_guides_and_breaks_ties_by_order() {
    // width 3 of the guides 5, 2, 9, 2, 7: the two 2s in their order, then 5
    let mut engine = BeamSearch::<Named, Listed>::new(3);
    let mut stats: Stats<Named> = SolverStats::new(SimpleSolutionKeeper::default(), fan());
    engine.solve(fan(), &mut stats, Never);
    assert_eq!(primal_log(&stats), vec![20, 20, 20]);
    let offered: Vec<u64> = stats.events.iter().map(|e| e.it).collect();
    assert_eq!(offered, vec![2, 2, 2]);
    assert_eq!(stats.best_solution(), Some((2, Cost(20))));
    // with width 1 only the first of the two best is expanded
    let mut greedy = BeamSearch::<Named, Listed>::new(1);
    let mut sk = SimpleSolutionKeeper::<Named>::default();
    greedy.solve(fan(), &mut sk, Never);
    assert_eq!(sk.best_solution(), Some((2, Cost(20))));
}

/// root 0 with the children 1 and 2, which share the one child 3, a leaf.
fn diamond() -> Named {
    Named(Listed {
        children: vec![vec![1, 2], vec![3], vec![3], vec![]],
        goodness: vec![0, 1, 2, 0],
        objective: vec![None, None, None, Some(4)],
    })
}

#[test]
fn duplicate_set_prunes_a_node_reached_twice() {
    let mut plain = BeamSearch::<Named, Listed>::new(4);
    let mut seen_twice: Stats<Named> =
        SolverStats::new(SimpleSolutionKeeper::default(), diamond());
    plain.solve(diamond(), &mut seen_twice, Never);
    assert_eq!(primal_log(&seen_twice), vec![4, 4]);

    let mut pruning = BeamSearch::<Named, Listed, BloomFilter<Node, 16, 256>>::new(4);
    let mut seen_once: Stats<Named> =
        SolverStats::new(SimpleSolutionKeeper::default(), diamond());
    pruning.solve(diamond(), &mut seen_once, Never);
    assert_eq!(primal_log(&seen_once), vec![4]);
    assert_eq!(seen_once.best_solution(), Some((3, Cost(4))));
}

#[test]
fn guides_are_ordered_by_their_keys() {
    assert_eq!(guide_order(&Cost(1), &Cost(2)), Ordering::Less);
    assert_eq!(guide_order(&Cost(2), &Cost(1)), Ordering::Greater);
    assert_eq!(guide_order(&Cost(2), &Cost(2)), Ordering::Equal);
    assert_eq!(guide_order(&Cost::unbounded(), &Cost::unfeas()), Ordering::Less);
}

#[test]
fn tree_leaves_agree_with_the_problem() {
    let p = two_paths();
    let ts = <Listed as Tree<Named>>::from(&p);
    for n in 0..5 {
        let node = Node(n);
        assert_eq!(ts.is_leaf(&node), ts.children_id(&node).is_empty());
        assert_eq!(ts.is_leaf(&node), ts.objective(&node).is_some());
        if let Some(sol) = ts.to_solution(&node) {
            assert_eq!(Some(p.obj(&sol)), ts.objective(&node));
        }
    }
}

#[test]
fn neighbour_objective_is_the_objective_of_the_neighbour() {
    for s in -5..=5 {
        for nid in Steps.neighbourhood_id(&Parabola, &s) {
            assert_eq!(
                Steps.neighbour_obj(&Parabola, &s, &nid),
                Parabola.obj(&Steps.neighbour(&Parabola, s, nid))
            );
            // a step and its inverse lead back
            let there = Steps.neighbour(&Parabola, s, nid);
            assert_eq!(Steps.neighbour(&Parabola, there, -nid), s);
            assert_eq!(Parabola.obj(&Steps.neighbour(&Parabola, there, -nid)), Parabola.obj(&s));
        }
    }
}

// ------------------------------------------------------------- single rounds

#[test]
fn a_round_of_steepest_descent() {
    type Engine = SteepestDescentLocalSearch<Parabola, Steps>;
    let mut sk = SimpleSolutionKeeper::<Parabola>::default();
    assert_eq!(Engine::round(&Steps, &Parabola, 4, Cost(16), &mut sk), (3, Cost(9), true));
    assert_eq!(sk.best_solution(), Some((3, Cost(9))));
    assert_eq!(Engine::round(&Steps, &Parabola, 0, Cost(0), &mut sk), (0, Cost(0), false));
    assert_eq!(sk.best_solution(), Some((3, Cost(9))));
}

#[test]
fn a_round_of_first_improving_search() {
    type Engine = FirstImprovingRandomLocalSearch<Parabola, DrawnStep, Scripted>;
    let mut rng = script(&[3, -3]);
    let mut sk = SimpleSolutionKeeper::<Parabola>::default();
    assert_eq!(Engine::round(&DrawnStep, &Parabola, 10, Cost(10), &mut rng, &mut sk), (10, Cost(10)));
    assert!(sk.best_solution().is_none());
    assert_eq!(Engine::round(&DrawnStep, &Parabola, 10, Cost(10), &mut rng, &mut sk), (7, Cost(7)));
    assert_eq!(sk.best_solution(), Some((7, Cost(7))));
    assert_eq!(rng.1, 2);
}

#[test]
fn a_round_of_microcanonical_annealing() {
    type Engine = MicrocanonicalAnnealing<Parabola, DrawnStep, Scripted>;
    let mut rng = script(&[2, 2, -4]);
    let mut sk = SimpleSolutionKeeper::<Parabola>::default();
    let a = Engine::round(&DrawnStep, &Parabola, 10, Cost(10), 3, &mut rng, &mut sk);
    assert_eq!(a, (12, Cost(12), 1));
    let b = Engine::round(&DrawnStep, &Parabola, a.0, a.1, a.2, &mut rng, &mut sk);
    assert_eq!(b, (12, Cost(12), 1));
    let c = Engine::round(&DrawnStep, &Parabola, b.0, b.1, b.2, &mut rng, &mut sk);
    assert_eq!(c, (8, Cost(8), 5));
    assert_eq!(sk.best_solution(), Some((8, Cost(8))));
}

#[test]
fn a_round_of_simulated_annealing() {
    type Engine = SimulatedAnnealing<Parabola, RiseByTwo, Scripted, Fixed>;
    let mut sk = SimpleSolutionKeeper::<Parabola>::default();
    let mut rng = Scripted(vec![unit(0.36), unit(0.37)], 0);
    let mut warm = Fixed(2.0);
    let taken = Engine::round(&RiseByTwo, &Parabola, 10, Cost(10), &mut rng, &mut warm, &mut sk);
    assert_eq!(taken, (12, Cost(12), false));
    let refused = Engine::round(&RiseByTwo, &Parabola, 10, Cost(10), &mut rng, &mut warm, &mut sk);
    assert_eq!(refused, (10, Cost(10), false));
    let mut cold = Fixed(-1.0);
    let frozen = Engine::round(&RiseByTwo, &Parabola, 10, Cost(10), &mut rng, &mut cold, &mut sk);
    assert_eq!(frozen, (10, Cost(10), true));
    assert_eq!(rng.1, 2);
    assert_eq!(sk.best_solution(), Some((12, Cost(12))));
}

#[test]
fn a_layer_of_beam_search() {
    let p = fan();
    let ts = <Listed as Tree<Named>>::from(&p);
    let mut sk = SimpleSolutionKeeper::<Named>::default();
    let mut set = AlwaysEmptySet;
    let next = BeamSearch::<Named, Listed>::layer(&ts, &vec![Node(0)], &mut set, &mut sk, 4);
    // the guides 5, 2, 9, 2, 7 in stable order: 2 (node 2), 2 (node 4), 5 (node 1), 7 (node 5)
    assert_eq!(next, vec![Node(2), Node(4), Node(1), Node(5)]);
    assert!(sk.best_solution().is_none());
    let after = BeamSearch::<Named, Listed>::layer(&ts, &next, &mut set, &mut sk, 4);
    assert!(after.is_empty());
    assert_eq!(sk.best_solution(), Some((2, Cost(20))));
}

// ------------------------------------------------------------------ harness

impl Reduction<Parabola> for Parabola {
    fn reduce_from(p: &Parabola) -> Self {
        p.clone()
    }
    fn lift_solution_to(&self, sol: i64) -> i64 {
        sol
    }
    fn lift_obj_to(&self, obj: Cost) -> Cost {
        obj
    }
}

#[test]
fn identity_reduction_round_trip() {
    let p = Parabola;
    let reduced = <Parabola as Reduction<Parabola>>::reduce_from(&p);
    for s in -5..=5 {
        let o = reduced.obj(&s);
        let lifted = (reduced.lift_solution_to(s), reduced.lift_obj_to(o));
        assert_eq!(lifted, (s, p.obj(&s)));
        let again = <Parabola as Reduction<Parabola>>::reduce_from(&reduced);
        assert_eq!((again.lift_solution_to(lifted.0), again.lift_obj_to(lifted.1)), lifted);
    }
}

/// Stands for the parabola with every value a hundred times as large.
#[derive(Clone)]
struct Scaled;

impl Problem for Scaled {
    type Sol = i64;
    type Obj = Cost;
    fn obj(&self, sol: &i64) -> Cost {
        Cost(100 * sol * sol)
    }
    fn is_feasible(&self, sol: &i64) -> bool {
        (-5..=5).contains(sol)
    }
}

impl Reduction<Parabola> for Scaled {
    fn reduce_from(_p: &Parabola) -> Self {
        Scaled
    }
    fn lift_solution_to(&self, sol: i64) -> i64 {
        sol
    }
    fn lift_obj_to(&self, obj: Cost) -> Cost {
        if obj.is_feas() && obj.is_bounded() {
            Cost(obj.0 / 100)
        } else {
            obj
        }
    }
}

#[derive(Clone)]
struct ScaledSteps;

impl NeighbourhoodIndirect<Scaled> for ScaledSteps {
    type NeighbourId = i64;
    fn neighbourhood_id(&self, _p: &Scaled, node: &i64) -> Vec<i64> {
        [-1, 1].into_iter().filter(|d| (-5..=5).contains(&(node + d))).collect()
    }
    fn neighbour_obj(&self, p: &Scaled, node: &i64, nid: &i64) -> Cost {
        p.obj(&(node + nid))
    }
    fn neighbour(&self, _p: &Scaled, node: i64, nid: i64) -> i64 {
        node + nid
    }
}

#[test]
fn a_single_run_is_recorded_in_the_units_of_the_problem_posed() {
    let engine = SteepestDescentLocalSearch::new(ScaledSteps, (3, Cost(900)));
    let run: SingleTestData =
        test_single::<Parabola, Scaled, _, _, StdTimer>(engine, &Parabola, Never);
    let primal: Vec<i64> = run.data_points.iter().map(|d| d.pb).collect();
    assert_eq!(primal, vec![9, 4, 1, 0]);
    let its: Vec<u64> = run.data_points.iter().map(|d| d.it).collect();
    assert_eq!(its, vec![0, 1, 2, 3]);
    assert!(run.data_points.iter().all(|d| d.db == i64::MIN));
    assert_eq!(run.lb(), 0);
    assert_eq!(run.ub(), i64::MIN);
    assert_eq!(run.nits(), 3);
    assert!(run.time().covers(&run.data_points[0].time));
}

#[test]
fn a_record_without_points() {
    let engine = FirstImprovingRandomLocalSearch::new(DrawnStep, (0, Cost(0)), script(&[1]));
    let run = test_single::<Parabola, Parabola, _, _, StdTimer>(engine, &Parabola, After(1));
    assert!(run.data_points.is_empty());
    assert_eq!(run.lb(), UNFEAS);
    assert_eq!(run.ub(), UNBOUNDED);
    assert_eq!(run.nits(), 0);
    assert_eq!((run.time().as_secs(), run.time().subsec_nanos()), (0, 0));
}

#[test]
fn a_record_from_the_log_of_a_stats_keeper() {
    let mut stats: SolverStats<StdTimer, Scaled, SimpleSolutionKeeper<Scaled>> =
        SolverStats::new(SimpleSolutionKeeper::default(), Scaled);
    stats.add_solution(&2, Cost(400));
    stats.iter();
    stats.add_dual_bound(Cost(100));
    stats.finish();
    let run = SingleTestData::from::<Parabola, _, _, _>(&stats);
    let points: Vec<(u64, i64, i64)> = run.data_points.iter().map(|d| (d.it, d.pb, d.db)).collect();
    assert_eq!(points, vec![(0, 4, i64::MIN), (1, 4, 1), (1, 4, 1)]);
}

// ------------------------------------------------- what reaches the keeper

/// Keeps nothing but the list of what it was offered and told.
#[derive(Default)]
struct Recorder {
    offered: Vec<(i64, i64)>,
    iterations: usize,
}

impl SolutionKeeper<Parabola> for Recorder {
    fn add_solution(&mut self, sol: &i64, obj: Cost) {
        self.offered.push((*sol, obj.0));
    }
    fn add_solution_fn<F: FnOnce() -> i64>(&mut self, f: F, obj: Cost) {
        self.offered.push((f(), obj.0));
    }
    fn add_dual_bound(&mut self, _db: Cost) {}
    fn iter(&mut self) {
        self.iterations += 1;
    }
    fn best_solution(&self) -> Option<(i64, Cost)> {
        self.offered.iter().min_by_key(|o| o.1).map(|o| (o.0, Cost(o.1)))
    }
}

#[test]
fn steepest_descent_reports_each_solution_with_its_objective() {
    let mut engine = SteepestDescentLocalSearch::new(Steps, (4, Cost(16)));
    let mut seen = Recorder::default();
    engine.solve(Parabola, &mut seen, Never);
    assert_eq!(seen.offered, vec![(4, 16), (3, 9), (2, 4), (1, 1), (0, 0)]);
    assert_eq!(seen.iterations, 5);
}

#[test]
fn first_improving_search_reports_the_solution_moved_to() {
    let rng = script(&[2, -1, 5, -3]);
    let mut engine = FirstImprovingRandomLocalSearch::new(DrawnStep, (10, Cost(10)), rng);
    let mut seen = Recorder::default();
    engine.solve(Parabola, &mut seen, After(4));
    assert_eq!(seen.offered, vec![(9, 9), (6, 6)]);
}

#[test]
fn a_move_and_its_inverse_lead_back() {
    // start at 10 with energy 3: up by 2, back down by 2, then up by 3
    let rng = script(&[2, -2, 3]);
    let mut engine = MicrocanonicalAnnealing::new(DrawnStep, (10, Cost(10)), 3, rng);
    let mut seen = Recorder::default();
    engine.solve(Parabola, &mut seen, After(3));
    // the third report is the start again, and the energy is 3 again, which
    // is why the rise by 3 is then paid for
    assert_eq!(seen.offered, vec![(10, 10), (12, 12), (10, 10), (13, 13)]);
}

#[test]
fn simulated_annealing_reports_the_neighbour_it_moved_to() {
    let rng = Scripted(vec![unit(0.3)], 0);
    let mut engine = SimulatedAnnealing::new(RiseByTwo, (10, Cost(10)), rng, Fixed(2.0));
    let mut seen = Recorder::default();
    engine.solve(Parabola, &mut seen, After(1));
    assert_eq!(seen.offered, vec![(12, 12)]);
}

// --------------------------------------------- what reaches the stop condition

/// Records the bounds of each poll; fires when the primal bound lies below
/// `below`.
#[derive(Clone)]
struct Watching {
    polls: Rc<RefCell<Vec<(i64, i64)>>>,
    below: i64,
}

impl StopCondition<Cost> for Watching {
    fn stop(&mut self, primal: Cost, dual: Cost) -> bool {
        self.polls.borrow_mut().push((primal.0, dual.0));
        primal.0 < self.below
    }
}

#[test]
fn steepest_descent_polls_with_the_best_of_the_keeper() {
    // the keeper holds better than the start, and the stop condition fires
    // on any primal bound below the start: the first poll ends the run
    let polls = Rc::new(RefCell::new(Vec::new()));
    let mut engine = SteepestDescentLocalSearch::new(Steps, (4, Cost(16)));
    let mut sk = SimpleSolutionKeeper::<Parabola>::default();
    sk.add_solution(&77, Cost(10));
    engine.solve(Parabola, &mut sk, Watching { polls: polls.clone(), below: 16 });
    assert_eq!(*polls.borrow(), vec![(10, i64::MIN)]);
    assert_eq!(sk.best_solution(), Some((77, Cost(10))));

    // never firing: each poll has the best of the keeper, before each round
    let polls = Rc::new(RefCell::new(Vec::new()));
    let mut engine = SteepestDescentLocalSearch::new(Steps, (4, Cost(16)));
    let mut sk = SimpleSolutionKeeper::<Parabola>::default();
    sk.add_solution(&77, Cost(3));
    engine.solve(Parabola, &mut sk, Watching { polls: polls.clone(), below: i64::MIN });
    let primal: Vec<i64> = polls.borrow().iter().map(|p| p.0).collect();
    assert_eq!(primal, vec![3, 3, 3, 1, 0]);
    assert!(polls.borrow().iter().all(|p| p.1 == i64::MIN));
    assert_eq!(sk.best_solution(), Some((0, Cost(0))));
}

#[test]
fn the_other_engines_poll_with_the_best_of_the_keeper() {
    let polls = Rc::new(RefCell::new(Vec::new()));
    let rng = script(&[-1, 5, -3]);
    let mut engine = FirstImprovingRandomLocalSearch::new(DrawnStep, (10, Cost(10)), rng);
    let mut sk = SimpleSolutionKeeper::<Parabola>::default();
    sk.add_solution(&77, Cost(8));
    engine.solve(Parabola, &mut sk, Watching { polls: polls.clone(), below: 7 });
    // moves to 9, stays, moves to 6; the keeper holds 8, 8, 8, then 6
    assert_eq!(*polls.borrow(), vec![(8, i64::MIN), (8, i64::MIN), (8, i64::MIN), (6, i64::MIN)]);
    assert_eq!(sk.best_solution(), Some((6, Cost(6))));
}

// ------------------------------------------ the width before the duplicates

/// root 0 with the children 1 (goodness 1) and 2 (goodness 2), both leaves.
fn pair() -> Named {
    Named(Listed {
        children: vec![vec![1, 2], vec![], vec![]],
        goodness: vec![0, 1, 2],
        objective: vec![None, Some(10), Some(20)],
    })
}

#[test]
fn duplicates_are_dropped_after_the_width_was_applied() {
    let p = pair();
    let ts = <Listed as Tree<Named>>::from(&p);
    let beam = vec![Node(0)];
    let ranked = vec![(Cost(1), 0, 0), (Cost(2), 0, 1)];
    type Seen = BloomFilter<Node, 16, 256>;

    // the child of smaller guide is held already: at width 1 it is the one
    // candidate taken, and the next beam is empty
    let mut set = <Seen as DuplicateSet<Node>>::empty();
    set.insert(&Node(1));
    assert!(select_children(&ts, &beam, &ranked, &mut set, 1).is_empty());
    assert!(!set.contains(&Node(2)));

    // at width 2 both are taken and the second child is kept
    let mut set = <Seen as DuplicateSet<Node>>::empty();
    set.insert(&Node(1));
    assert_eq!(select_children(&ts, &beam, &ranked, &mut set, 2), vec![Node(2)]);
    assert!(set.contains(&Node(2)));

    // a whole layer at width 1
    let mut set = <Seen as DuplicateSet<Node>>::empty();
    set.insert(&Node(1));
    let mut sk = SimpleSolutionKeeper::<Named>::default();
    let next = BeamSearch::<Named, Listed, Seen>::layer(&ts, &beam, &mut set, &mut sk, 1);
    assert!(next.is_empty());
}

#[test]
fn a_beam_holds_fewer_nodes_than_its_width_after_duplicates() {
    // the diamond at width 2: both parents are taken, their one child is
    // kept once
    let mut pruning = BeamSearch::<Named, Listed, BloomFilter<Node, 16, 256>>::new(2);
    let mut stats: Stats<Named> = SolverStats::new(SimpleSolutionKeeper::default(), diamond());
    pruning.solve(diamond(), &mut stats, Never);
    assert_eq!(primal_log(&stats), vec![4]);
    assert_eq!(stats.best_solution(), Some((3, Cost(4))));
}

// ------------------------------------------------------------ runs by seeds

#[derive(Clone)]
struct Always;

impl ProblemGenerator<Parabola> for Always {
    fn generate<R: Rng>(&self, rng: &mut R) -> Parabola {
        rng.next_u64();
        Parabola
    }
}

#[test]
fn one_run_per_seed() {
    let engine = SteepestDescentLocalSearch::new(ScaledSteps, (3, Cost(900)));
    assert!(engine.is_ready(&Scaled));
    let seeds: Vec<u64> = vec![0, 1, 2];
    let runs = run_seeds::<Parabola, Scaled, _, _, StdTimer, _>(&engine, &Never, &Always, &seeds);
    assert_eq!(runs.len(), 3);
    for run in runs.iter() {
        assert_eq!(run.lb(), 0);
        assert_eq!(run.nits(), 3);
    }
    assert!(run_seeds::<Parabola, Scaled, _, _, StdTimer, _>(&engine, &Never, &Always, &Vec::new())
        .is_empty());
    // the engine itself was not run
    assert!(engine.is_ready(&Scaled));
}

/// The parabola with a wall: no move leads below `wall`.
#[derive(Clone)]
struct Walled {
    wall: i64,
}

impl Problem for Walled {
    type Sol = i64;
    type Obj = Cost;
    fn obj(&self, sol: &i64) -> Cost {
        Cost(sol * sol)
    }
    fn is_feasible(&self, sol: &i64) -> bool {
        (self.wall..=5).contains(sol)
    }
}

impl Reduction<Walled> for Walled {
    fn reduce_from(p: &Walled) -> Self {
        p.clone()
    }
    fn lift_solution_to(&self, sol: i64) -> i64 {
        sol
    }
    fn lift_obj_to(&self, obj: Cost) -> Cost {
        obj
    }
}

#[derive(Clone)]
struct WalledSteps;

impl NeighbourhoodIndirect<Walled> for WalledSteps {
    type NeighbourId = i64;
    fn neighbourhood_id(&self, p: &Walled, node: &i64) -> Vec<i64> {
        [-1, 1].into_iter().filter(|d| (p.wall..=5).contains(&(node + d))).collect()
    }
    fn neighbour_obj(&self, p: &Walled, node: &i64, nid: &i64) -> Cost {
        p.obj(&(node + nid))
    }
    fn neighbour(&self, _p: &Walled, node: i64, nid: i64) -> i64 {
        node + nid
    }
}

#[derive(Clone)]
struct Drawn;

impl ProblemGenerator<Walled> for Drawn {
    fn generate<R: Rng>(&self, rng: &mut R) -> Walled {
        Walled { wall: (rng.next_u64() % 4) as i64 }
    }
}

#[test]
fn each_run_is_on_the_instance_of_its_seed() {
    let engine = SteepestDescentLocalSearch::new(WalledSteps, (3, Cost(9)));
    let mut seeds: Vec<u64> = (0..16).collect();
    seeds.push(3);
    let runs = run_seeds::<Walled, Walled, _, _, StdTimer, _>(&engine, &Never, &Drawn, &seeds);
    assert_eq!(runs.len(), 17);
    let mut walls: Vec<i64> = Vec::new();
    for (seed, run) in seeds.iter().zip(runs.iter()) {
        let wall = (Splitmix64::from_u64(*seed).next_u64() % 4) as i64;
        // the descent reports 3 and then each place down to the wall
        let reported: Vec<i64> = run.data_points.iter().map(|d| d.pb).collect();
        let expected: Vec<i64> = (wall..=3).rev().map(|x| x * x).collect();
        assert_eq!(reported, expected);
        assert_eq!(run.lb(), wall * wall);
        walls.push(wall);
    }
    assert_eq!(walls[3], walls[16]);
    assert!(walls.iter().any(|w| *w != walls[0]));
}

#[test]
fn engines_say_whether_they_are_ready() {
    let mut engine = SteepestDescentLocalSearch::new(Steps, (0, Cost(0)));
    assert!(engine.is_ready(&Parabola));
    engine.solve(Parabola, &mut SimpleSolutionKeeper::default(), Never);
    assert!(!engine.is_ready(&Parabola));
    assert!(BeamSearch::<Named, Listed>::new(1).is_ready(&two_paths()));
    let demon = MicrocanonicalAnnealing::new(DrawnStep, (0, Cost(0)), 0, script(&[]));
    assert!(demon.is_ready(&Parabola));
    let random = FirstImprovingRandomLocalSearch::new(DrawnStep, (0, Cost(0)), script(&[]));
    assert!(random.is_ready(&Parabola));
    let annealing = SimulatedAnnealing::new(DrawnStep, (0, Cost(0)), script(&[]), Fixed(1.0));
    assert!(annealing.is_ready(&Parabola));
}

#[test]
fn tick_counter_clock_arithmetic() {
    type Clock = RdtscTimer<1000>;
    let a = Clock::reading(2000);
    let b = Clock::reading(5500);
    assert_eq!(a, RdtscTimerInstant::<1000>(2000));
    let d = Clock::since(b, a);
    assert_eq!((d.as_secs(), d.subsec_nanos()), (3, 500_000_000));
    let none = Clock::since(a, b);
    assert_eq!((none.as_secs(), none.subsec_nanos()), (0, 0));
    let still = RdtscTimer::<0>::since(RdtscTimer::<0>::reading(9), RdtscTimer::<0>::reading(1));
    assert_eq!((still.as_secs(), still.subsec_nanos()), (0, 0));
}
