use mopper::base::Objective;
use mopper::comb::{gray_step, GroundSetProblem, GroundSetProblemEnumerationSolver, GroundSetX};
use mopper::lp::model::{
    Coefficient, ConstraintId, Expression, Inequality, ModelBuilder, VariableId,
};
use mopper::problem::{
    absorb, absorb_all, Obj, Problem, Reducer, ReductionSolver, Solver, SolverEvent, SolverOutput,
};
use mopper::utils::text::decimal;

#[derive(Clone, Copy, Debug, PartialEq)]
struct R(f64);

impl Coefficient for R {
    fn zero() -> Self {
        R(0.0)
    }
    fn one() -> Self {
        R(1.0)
    }
    fn minus_one() -> Self {
        R(-1.0)
    }
    fn add(self, other: Self) -> Self {
        R(self.0 + other.0)
    }
    fn mul(self, other: Self) -> Self {
        R(self.0 * other.0)
    }
    fn abs(self) -> Self {
        R(self.0.abs())
    }
    fn is_zero(self) -> bool {
        self.0 == 0.0
    }
    fn is_one(self) -> bool {
        self.0 == 1.0
    }
    fn is_positive(self) -> bool {
        self.0 > 0.0
    }
    fn is_negative(self) -> bool {
        self.0 < 0.0
    }
    fn text(self) -> String {
        format!("{}", self.0)
    }
}

fn var(id: VariableId) -> Expression<R> {
    Expression::from(id)
}

fn num(x: f64) -> Expression<R> {
    Expression::cons(R(x))
}

#[test]
fn usage() {
    let mut mb = ModelBuilder::<R>::new();
    let mut x = Vec::<VariableId>::new();
    for i in 0..10 {
        x.push(mb.add_var(R(0.0), R(1.0), true, format!("x{}", i)));
    }
    // (5.1 * (-3 * x[0] + 2 * x[1]) + x[4] - x[5] + 2) << 3
    let first = var(x[0])
        .mul(R(-3.0))
        .add(var(x[1]).mul(R(2.0)))
        .mul(R(5.1))
        .add(var(x[4]))
        .sub(var(x[5]))
        .add(num(2.0))
        .shl(num(3.0));
    assert_eq!(mb.add_constraint(first), ConstraintId(0));
    // the sum of all the variables >> 2
    let second = x.iter().fold(num(0.0), |acc, item| acc.add(var(*item))).shr(num(2.0));
    assert_eq!(mb.add_constraint(second), ConstraintId(1));
    let text = mb.fmt();
    println!("{}", text);
    assert_eq!(
        text,
        " -15.299999999999999\u{b7}x0 +10.2\u{b7}x1 +x4 -x5 -1 <= 0\n \
         -x0 -x1 -x2 -x3 -x4 -x5 -x6 -x7 -x8 -x9 +2 <= 0\n"
    );
}

#[test]
fn variables_are_named_by_their_place() {
    let mut mb = ModelBuilder::<R>::default();
    assert_eq!(mb.add_var(R(0.0), R(1.0), false, String::new()), VariableId(0));
    assert_eq!(mb.add_var(R(-1.0), R(1.0), true, "y".to_string()), VariableId(1));
    assert_eq!(mb.add_var(R(0.0), R(9.0), false, String::new()), VariableId(2));
    assert_eq!(mb.variables.len(), 3);
    assert_eq!(mb.variables[1].name, "y");
    assert!(mb.variables[1].integer);
    assert_eq!(mb.variables[1].lb, R(-1.0));
    assert_eq!(mb.variables[2].ub, R(9.0));
    assert_eq!(mb.fmt_var(0), "var[0]");
    assert_eq!(mb.fmt_var(1), "y");
    assert_eq!(mb.fmt_var(2), "var[2]");
    assert_eq!(mb.fmt(), "");
}

#[test]
fn decimal_digits() {
    assert_eq!(decimal(0), "0");
    assert_eq!(decimal(7), "7");
    assert_eq!(decimal(10), "10");
    assert_eq!(decimal(1234567890), "1234567890");
    assert_eq!(decimal(usize::MAX), usize::MAX.to_string());
}

fn terms(e: &Expression<R>) -> Vec<(usize, f64)> {
    e.variables.iter().map(|t| (t.0, t.1 .0)).collect()
}

fn sum_of(list: &[(usize, f64)], constant: f64) -> Expression<R> {
    Expression { constant: R(constant), variables: list.iter().map(|t| (t.0, R(t.1))).collect() }
}

#[test]
fn sums_merge_their_terms_in_order() {
    let a = sum_of(&[(1, 1.0), (3, 2.0), (5, -1.0), (9, 4.0)], 1.5);
    let b = sum_of(&[(0, 7.0), (3, 0.5), (5, 1.0), (6, 0.0), (11, 1.0)], -0.5);
    let s = a.clone().add(b.clone());
    assert_eq!(s.constant, R(1.0));
    // 5 is left out, its coefficients add up to zero; 6 stays though it is zero
    assert_eq!(terms(&s), vec![(0, 7.0), (1, 1.0), (3, 2.5), (6, 0.0), (9, 4.0), (11, 1.0)]);
    assert_eq!(terms(&b.clone().add(a.clone())), terms(&s));
    assert_eq!(terms(&a.clone().add(num(3.0))), terms(&a));
    assert_eq!(terms(&num(3.0).add(a.clone())), terms(&a));
    let mut c = a.clone();
    c.add_assign(a.clone());
    assert_eq!(terms(&c), vec![(1, 2.0), (3, 4.0), (5, -2.0), (9, 8.0)]);
    assert_eq!(c.constant, R(3.0));
}

#[test]
fn expressions_scale_negate_and_subtract() {
    let a = sum_of(&[(1, 1.0), (3, 2.0)], 1.5);
    let doubled = a.clone().mul(R(2.0));
    assert_eq!(terms(&doubled), vec![(1, 2.0), (3, 4.0)]);
    assert_eq!(doubled.constant, R(3.0));
    let mut halved = a.clone();
    halved.mul_assign(R(0.5));
    assert_eq!(terms(&halved), vec![(1, 0.5), (3, 1.0)]);
    let negated = a.clone().neg();
    assert_eq!(terms(&negated), vec![(1, -1.0), (3, -2.0)]);
    assert_eq!(negated.constant, R(-1.5));
    let nothing = a.clone().sub(a.clone());
    assert!(terms(&nothing).is_empty());
    assert_eq!(nothing.constant, R(0.0));
    let mut less = a.clone();
    less.sub_assign(sum_of(&[(3, 2.0), (4, 1.0)], 0.5));
    assert_eq!(terms(&less), vec![(1, 1.0), (4, -1.0)]);
    assert_eq!(less.constant, R(1.0));
    assert_eq!(terms(&var(VariableId(4))), vec![(4, 1.0)]);
    assert_eq!(var(VariableId(4)).constant, R(0.0));
    assert!(terms(&num(2.5)).is_empty());
}

#[test]
fn constraints_are_differences() {
    let a = sum_of(&[(0, 1.0)], 0.0);
    let Inequality(at_most) = a.clone().shl(num(3.0));
    assert_eq!(terms(&at_most), vec![(0, 1.0)]);
    assert_eq!(at_most.constant, R(-3.0));
    let Inequality(at_least) = a.clone().shr(num(3.0));
    assert_eq!(terms(&at_least), vec![(0, -1.0)]);
    assert_eq!(at_least.constant, R(3.0));
    let mut mb = ModelBuilder::<R>::new();
    mb.add_var(R(0.0), R(1.0), false, String::new());
    assert_eq!(mb.fmt_ineq(&Inequality(at_most)), " +var[0] -3 <= 0");
    assert_eq!(mb.fmt_expr(&at_least), " -var[0] +3");
    assert_eq!(mb.fmt_expr(&sum_of(&[(0, 0.0)], 0.0)), " 0\u{b7}var[0]");
    assert_eq!(mb.fmt_expr(&sum_of(&[(0, -2.5)], 0.25)), " -2.5\u{b7}var[0] +0.25");
    assert_eq!(mb.fmt_expr(&num(0.0)), "");
}

// ------------------------------------------------------------ event streams

#[derive(Clone)]
struct Knapsack {
    weights: Vec<i64>,
    values: Vec<i64>,
    capacity: i64,
}

#[derive(Clone, Debug, PartialEq)]
struct Mask(u64, usize);

impl GroundSetX for Mask {
    fn contains_item(&self, i: usize) -> bool {
        (self.0 >> i) & 1 == 1
    }
    fn switch_item(&mut self, i: usize) -> bool {
        self.0 ^= 1 << i;
        self.contains_item(i)
    }
    fn iter(&self) -> Vec<usize> {
        (0..self.1).filter(|i| self.contains_item(*i)).collect()
    }
    fn ground_set_size(&self) -> usize {
        self.1
    }
    fn empty() -> Self {
        Mask(0, 3)
    }
}

impl Problem for Knapsack {
    type X = Mask;
    type Z = i64;
    fn obj(&self, x: &Mask) -> i64 {
        -x.iter().iter().map(|i| self.values[*i]).sum::<i64>()
    }
    fn feas(&self, x: &Mask) -> bool {
        x.iter().iter().map(|i| self.weights[*i]).sum::<i64>() <= self.capacity
    }
}

impl GroundSetProblem for Knapsack {}

fn knapsack() -> Knapsack {
    Knapsack { weights: vec![3, 4, 2], values: vec![5, 6, 3], capacity: 6 }
}

fn shown(events: &[SolverEvent<Knapsack>]) -> Vec<String> {
    events
        .iter()
        .map(|e| match e {
            SolverEvent::Solution(x, z) => format!("sol {:03b} {}", x.0, z),
            SolverEvent::PrimalBound(b) => format!("primal {:?}", b),
            SolverEvent::DualBound(b) => format!("dual {:?}", b),
        })
        .collect()
}

#[test]
fn enumeration_walks_the_subsets_in_gray_order() {
    let mut set = Mask::empty();
    let mut seen = Vec::new();
    for i in 1..8u64 {
        let d = gray_step(&mut set, i);
        assert_eq!(set.0, i ^ (i >> 1));
        seen.push((d, set.0));
    }
    assert_eq!(
        seen,
        vec![(0, 0b001), (1, 0b011), (0, 0b010), (2, 0b110), (0, 0b111), (1, 0b101), (0, 0b100)]
    );
    let mut all: Vec<u64> = seen.iter().map(|s| s.1).collect();
    all.sort();
    assert_eq!(all, vec![1, 2, 3, 4, 5, 6, 7]);
}

#[test]
fn enumeration_reports_each_improvement_and_the_bounds() {
    let mut solver = GroundSetProblemEnumerationSolver {};
    let events = solver.solve(knapsack());
    // 001 (-5), 011 is too heavy, 010 (-6), 110 (-9), 111 too heavy, 101 (-8), 100 (-3)
    assert_eq!(
        shown(&events),
        vec!["sol 001 -5", "sol 010 -6", "sol 110 -9", "primal Value(-9)", "dual Value(-9)"]
    );
    let out = GroundSetProblemEnumerationSolver {}.solve_to_end(knapsack());
    assert_eq!(out.best_solution, Some((Mask(0b110, 3), -9)));
    assert_eq!(out.primal_bound, Obj::Value(-9));
    assert_eq!(out.dual_bound, Obj::Value(-9));
}

#[test]
fn enumeration_of_an_infeasible_problem() {
    let mut p = knapsack();
    p.capacity = -1;
    let events = GroundSetProblemEnumerationSolver {}.solve(p.clone());
    assert_eq!(shown(&events), vec!["primal Infeasible", "dual Infeasible"]);
    let out = GroundSetProblemEnumerationSolver {}.solve_to_end(p);
    assert_eq!(out.best_solution, None);
    assert_eq!(out.primal_bound, Obj::Infeasible);
    assert_eq!(out.dual_bound, Obj::Infeasible);
}

#[test]
fn events_are_absorbed_until_the_gap_closes() {
    let out = SolverOutput::<Knapsack>::default();
    assert_eq!(out.best_solution, None);
    assert_eq!(out.primal_bound, Obj::Infeasible);
    assert_eq!(out.dual_bound, Obj::Unbounded);
    let out = absorb(out, SolverEvent::Solution(Mask(1, 3), 4));
    assert_eq!((out.best_solution.clone(), out.primal_bound), (Some((Mask(1, 3), 4)), Obj::Value(4)));
    // an equal value lowers nothing and replaces nothing
    let out = absorb(out, SolverEvent::Solution(Mask(2, 3), 4));
    assert_eq!(out.best_solution, Some((Mask(1, 3), 4)));
    let out = absorb(out, SolverEvent::PrimalBound(Obj::Value(9)));
    assert_eq!(out.primal_bound, Obj::Value(4));
    let out = absorb(out, SolverEvent::PrimalBound(Obj::Value(2)));
    assert_eq!(out.primal_bound, Obj::Value(2));
    let out = absorb(out, SolverEvent::DualBound(Obj::Value(-7)));
    let out = absorb(out, SolverEvent::DualBound(Obj::Value(-9)));
    assert_eq!(out.dual_bound, Obj::Value(-7));
    assert_eq!(out.best_solution, Some((Mask(1, 3), 4)));

    let all = absorb_all(vec![
        SolverEvent::<Knapsack>::Solution(Mask(1, 3), 4),
        SolverEvent::DualBound(Obj::Value(4)),
        SolverEvent::Solution(Mask(2, 3), 1),
    ]);
    // the second event closes the gap, the third is not taken
    assert_eq!(all.best_solution, Some((Mask(1, 3), 4)));
    assert_eq!(all.primal_bound, Obj::Value(4));
    assert_eq!(all.dual_bound, Obj::Value(4));
    let none = absorb_all(Vec::<SolverEvent<Knapsack>>::new());
    assert_eq!(none.primal_bound, Obj::Infeasible);
}

/// Maximising the value by minimising its negative: the events of the
/// knapsack are brought back with the sign turned, and the bounds dropped.
#[derive(Clone)]
struct Worth(Knapsack);

impl Problem for Worth {
    type X = Mask;
    type Z = i64;
    fn obj(&self, x: &Mask) -> i64 {
        -self.0.obj(x)
    }
    fn feas(&self, x: &Mask) -> bool {
        self.0.feas(x)
    }
}

struct Turn;

impl Reducer<Worth, Knapsack> for Turn {
    fn reduce(p: Worth) -> Knapsack {
        p.0
    }
    fn retrieve(se: SolverEvent<Knapsack>) -> Option<SolverEvent<Worth>> {
        match se {
            SolverEvent::Solution(x, z) => Some(SolverEvent::Solution(x, -z)),
            _ => None,
        }
    }
}

#[test]
fn reduction_solver_brings_the_events_back() {
    let mut solver = ReductionSolver::<Worth, Knapsack, Turn, _>::new(
        GroundSetProblemEnumerationSolver {},
    );
    let events = solver.solve(Worth(knapsack()));
    let worths: Vec<(u64, i64)> = events
        .iter()
        .map(|e| match e {
            SolverEvent::Solution(x, z) => (x.0, *z),
            _ => panic!("a bound came through"),
        })
        .collect();
    assert_eq!(worths, vec![(0b001, 5), (0b010, 6), (0b110, 9)]);
}

#[test]
fn integer_values_between_the_bounds_are_an_objective() {
    let low = <Obj<i64> as Objective>::unbounded();
    let high = <Obj<i64> as Objective>::unfeas();
    assert_eq!((low, high), (Obj::Unbounded, Obj::Infeasible));
    let all = [low, Obj::Value(i64::MIN), Obj::Value(-1), Obj::Value(3), Obj::Value(i64::MAX), high];
    for (i, x) in all.iter().enumerate() {
        for (j, y) in all.iter().enumerate() {
            assert_eq!(Objective::less(x, y), i < j);
            assert_eq!(Objective::less(x, y), x < y);
        }
        assert_eq!(x.is_feas(), *x != high);
        assert_eq!(x.is_bounded(), *x != low);
    }
    assert_eq!(Obj::Value(3i64).value(), 3);
    assert_eq!(low.value(), i64::MIN);
    assert_eq!(high.value(), i64::MAX);
}
