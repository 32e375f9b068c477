use vstd::prelude::*;
use vstd::std_specs::cmp::PartialOrdSpec;
use std::cmp::Ordering;
use std::marker::PhantomData;
use crate::base::Objective;

verus! {

/// The value of an objective function, or one of two bounds that no value
/// reaches: every value lies above `Unbounded` and below `Infeasible`.
#[derive(PartialEq, PartialOrd, Clone, Copy, Debug)]
pub enum Obj<Z: Copy + PartialOrd> {
    Unbounded,
    Value(Z),
    Infeasible,
}

/// The comparisons of `Z` agree with its order in specifications.
pub open spec fn values_ordered<Z: PartialOrd>() -> bool {
    Z::obeys_partial_cmp_spec()
}

/// `a` is at most `b` in the order of `Z`.
pub open spec fn value_le<Z: PartialOrd>(a: Z, b: Z) -> bool {
    a.partial_cmp_spec(&b) matches Some(Ordering::Less | Ordering::Equal)
}

/// `a` is less than `b` in the order of `Z`.
pub open spec fn value_lt<Z: PartialOrd>(a: Z, b: Z) -> bool {
    a.partial_cmp_spec(&b) == Some(Ordering::Less)
}

/// `a` is at least `b` in the order of `Z`.
pub open spec fn value_ge<Z: PartialOrd>(a: Z, b: Z) -> bool {
    a.partial_cmp_spec(&b) matches Some(Ordering::Greater | Ordering::Equal)
}

impl<Z: Copy + PartialOrd> Obj<Z> {
    /// The place of the variant: `Unbounded` first, `Infeasible` last.
    pub open spec fn rank(self) -> int {
        match self {
            Obj::Unbounded => 0,
            Obj::Value(_) => 1,
            Obj::Infeasible => 2,
        }
    }

    /// `self` is less than `other`: by variant, and by value between values.
    pub open spec fn below(self, other: Self) -> bool {
        match (self, other) {
            (Obj::Value(a), Obj::Value(b)) => value_lt(a, b),
            _ => self.rank() < other.rank(),
        }
    }

    /// `self` is at most `other`: by variant, and by value between values.
    pub open spec fn at_most_spec(self, other: Self) -> bool {
        match (self, other) {
            (Obj::Value(a), Obj::Value(b)) => value_le(a, b),
            _ => self.rank() <= other.rank(),
        }
    }

    /// `self` is at least `other`: by variant, and by value between values.
    pub open spec fn at_least_spec(self, other: Self) -> bool {
        match (self, other) {
            (Obj::Value(a), Obj::Value(b)) => value_ge(a, b),
            _ => self.rank() >= other.rank(),
        }
    }

    /// Whether `self` is at most `other`.
    pub fn at_most(&self, other: &Self) -> (b: bool)
        ensures
            values_ordered::<Z>() ==> b == self.at_most_spec(*other),
            !(self is Value && other is Value) ==> b == (self.rank() <= other.rank()),
    {
        match (self, other) {
            (Obj::Value(a), Obj::Value(b)) => *a <= *b,
            (Obj::Unbounded, _) => true,
            (_, Obj::Infeasible) => true,
            _ => false,
        }
    }

    /// Whether `self` is at least `other`.
    pub fn at_least(&self, other: &Self) -> (b: bool)
        ensures
            values_ordered::<Z>() ==> b == self.at_least_spec(*other),
            !(self is Value && other is Value) ==> b == (self.rank() >= other.rank()),
    {
        match (self, other) {
            (Obj::Value(a), Obj::Value(b)) => *a >= *b,
            (_, Obj::Unbounded) => true,
            (Obj::Infeasible, _) => true,
            _ => false,
        }
    }
}

/// Every value lies strictly between the two bounds, whatever the order of
/// the values is.
pub proof fn lemma_bounds_bracket_values<Z: Copy + PartialOrd>(z: Z)
    ensures
        Obj::<Z>::Unbounded.below(Obj::Value(z)),
        Obj::Value(z).below(Obj::<Z>::Infeasible),
        Obj::<Z>::Unbounded.below(Obj::<Z>::Infeasible),
        !Obj::Value(z).below(Obj::<Z>::Unbounded),
        !Obj::<Z>::Infeasible.below(Obj::Value(z)),
{
}

/// Integer values between the two bounds as an objective for the engines: the
/// bounds are the sentinels, and the projection of a bound is the integer
/// nearest to it.
impl Objective for Obj<i64> {
    open spec fn key(&self) -> int {
        match *self {
            Obj::Unbounded => i64::MIN - 1,
            Obj::Value(z) => z as int,
            Obj::Infeasible => i64::MAX + 1,
        }
    }

    open spec fn spec_value(&self) -> int {
        match *self {
            Obj::Unbounded => i64::MIN as int,
            Obj::Value(z) => z as int,
            Obj::Infeasible => i64::MAX as int,
        }
    }

    open spec fn spec_unfeas() -> Self {
        Obj::Infeasible
    }

    open spec fn spec_unbounded() -> Self {
        Obj::Unbounded
    }

    fn unfeas() -> (r: Self) {
        Obj::Infeasible
    }

    fn unbounded() -> (r: Self) {
        Obj::Unbounded
    }

    fn is_feas(&self) -> (b: bool) {
        match self {
            Obj::Infeasible => false,
            _ => true,
        }
    }

    fn is_bounded(&self) -> (b: bool) {
        match self {
            Obj::Unbounded => false,
            _ => true,
        }
    }

    fn less(&self, other: &Self) -> (b: bool) {
        match (self, other) {
            (Obj::Value(a), Obj::Value(b)) => *a < *b,
            (Obj::Unbounded, Obj::Unbounded) => false,
            (Obj::Unbounded, _) => true,
            (Obj::Value(_), Obj::Infeasible) => true,
            _ => false,
        }
    }

    fn value(&self) -> (v: i64) {
        match self {
            Obj::Unbounded => i64::MIN,
            Obj::Value(z) => *z,
            Obj::Infeasible => i64::MAX,
        }
    }
}

/// A minimisation problem: minimise `obj(x)` over the `x` with `feas(x)`.
///
/// The spec functions are what the contracts of the methods speak of; an
/// implementation gives them their bodies.
pub trait Problem: Clone {
    type X: Clone;

    type Z: PartialEq + Copy + PartialOrd;

    open spec fn spec_obj(&self, x: &Self::X) -> Self::Z {
        arbitrary()
    }

    open spec fn spec_feas(&self, x: &Self::X) -> bool {
        arbitrary()
    }

    fn obj(&self, x: &Self::X) -> (z: Self::Z)
        ensures
            z == self.spec_obj(x),
    ;

    fn feas(&self, x: &Self::X) -> (b: bool)
        ensures
            b == self.spec_feas(x),
    ;
}

/// What a solver reports while it runs.
pub enum SolverEvent<P: Problem> {
    /// A feasible solution with its objective value.
    Solution(P::X, P::Z),
    /// A primal bound that no solution reported stands for.
    PrimalBound(Obj<P::Z>),
    DualBound(Obj<P::Z>),
}

/// What is known once a solver has run: the best solution reported and the
/// bounds.
pub struct SolverOutput<P: Problem> {
    pub best_solution: Option<(P::X, P::Z)>,
    pub primal_bound: Obj<P::Z>,
    pub dual_bound: Obj<P::Z>,
}

impl<P: Problem> Default for SolverOutput<P> {
    /// Nothing is known: no solution, and the bounds as wide as they go.
    fn default() -> (r: Self)
        ensures
            r == nothing_known::<P>(),
    {
        SolverOutput { best_solution: None, primal_bound: Obj::Infeasible, dual_bound: Obj::Unbounded }
    }
}

/// The output before any event.
pub open spec fn nothing_known<P: Problem>() -> SolverOutput<P> {
    SolverOutput { best_solution: None, primal_bound: Obj::Infeasible, dual_bound: Obj::Unbounded }
}

/// What is known after one more event. A solution replaces the best one if
/// there is none or its value is smaller, and lowers the primal bound to its
/// value unless the bound lies below already; a primal bound replaces the one
/// known unless that lies below; a dual bound replaces the one known unless
/// that lies above.
pub open spec fn absorbed<P: Problem>(ans: SolverOutput<P>, se: SolverEvent<P>) -> SolverOutput<P> {
    match se {
        SolverEvent::Solution(x, z) => SolverOutput {
            best_solution: if ans.best_solution is None || value_lt(
                z,
                ans.best_solution.unwrap().1,
            ) {
                Some((x, z))
            } else {
                ans.best_solution
            },
            primal_bound: if Obj::Value(z).at_most_spec(ans.primal_bound) {
                Obj::Value(z)
            } else {
                ans.primal_bound
            },
            dual_bound: ans.dual_bound,
        },
        SolverEvent::PrimalBound(b) => SolverOutput {
            best_solution: ans.best_solution,
            primal_bound: if b.at_most_spec(ans.primal_bound) {
                b
            } else {
                ans.primal_bound
            },
            dual_bound: ans.dual_bound,
        },
        SolverEvent::DualBound(b) => SolverOutput {
            best_solution: ans.best_solution,
            primal_bound: ans.primal_bound,
            dual_bound: if b.at_least_spec(ans.dual_bound) {
                b
            } else {
                ans.dual_bound
            },
        },
    }
}

/// The bounds have met: the primal bound is at most the dual bound.
pub open spec fn gap_closed<P: Problem>(ans: SolverOutput<P>) -> bool {
    ans.primal_bound.at_most_spec(ans.dual_bound)
}

/// What is known after the events were taken in turn, up to the first one
/// that closes the gap between the bounds.
pub open spec fn absorbed_all<P: Problem>(
    ans: SolverOutput<P>,
    events: Seq<SolverEvent<P>>,
) -> SolverOutput<P>
    decreases events.len(),
{
    if events.len() == 0 {
        ans
    } else {
        let next = absorbed(ans, events[0]);
        if gap_closed(next) {
            next
        } else {
            absorbed_all(next, events.skip(1))
        }
    }
}

/// Takes one event into what is known.
pub fn absorb<P: Problem>(ans: SolverOutput<P>, se: SolverEvent<P>) -> (r: SolverOutput<P>)
    ensures
        values_ordered::<P::Z>() ==> r == absorbed(ans, se),
{
    let mut ans = ans;
    match se {
        SolverEvent::Solution(x, z) => {
            let better = match &ans.best_solution {
                None => true,
                Some(b) => z < b.1,
            };
            if better {
                ans.best_solution = Some((x, z));
            }
            if Obj::Value(z).at_most(&ans.primal_bound) {
                ans.primal_bound = Obj::Value(z);
            }
        },
        SolverEvent::PrimalBound(z) => {
            if z.at_most(&ans.primal_bound) {
                ans.primal_bound = z;
            }
        },
        SolverEvent::DualBound(z) => {
            if z.at_least(&ans.dual_bound) {
                ans.dual_bound = z;
            }
        },
    }
    ans
}

/// Takes events in turn into what is known, up to the first one that closes
/// the gap between the bounds.
pub fn absorb_all<P: Problem>(events: Vec<SolverEvent<P>>) -> (r: SolverOutput<P>)
    ensures
        values_ordered::<P::Z>() ==> r == absorbed_all(nothing_known::<P>(), events@),
{
    let mut ans = SolverOutput::<P>::default();
    let mut done = false;
    let ghost all = events@;
    proof {
        assert(all.skip(0) == all);
    }
    for se in it: events
        invariant
            it.seq() == all,
            values_ordered::<P::Z>() ==> if done {
                ans == absorbed_all(nothing_known::<P>(), all)
            } else {
                absorbed_all(ans, all.skip(it.index())) == absorbed_all(nothing_known::<P>(), all)
            },
    {
        if !done {
            proof {
                assert(all.skip(it.index())[0] == se);
                assert(all.skip(it.index()).skip(1) == all.skip(it.index() + 1));
            }
            ans = absorb(ans, se);
            if ans.primal_bound.at_most(&ans.dual_bound) {
                done = true;
            }
        }
    }
    ans
}

/// A solver that reports what it finds as a list of events.
///
/// `ready` is what a run asks of the solver and the problem; `reports` says
/// which lists of events a run on a problem can report.
pub trait Solver<P: Problem> {
    open spec fn ready(&self, p: &P) -> bool {
        true
    }

    open spec fn reports(&self, p: P, events: Seq<SolverEvent<P>>) -> bool {
        true
    }

    fn solve(&mut self, p: P) -> (events: Vec<SolverEvent<P>>)
        requires
            old(self).ready(&p),
        ensures
            old(self).reports(p, events@),
    ;

    /// Runs the solver and gathers what its events make known, up to the
    /// first event that closes the gap between the bounds.
    fn solve_to_end(&mut self, p: P) -> (out: SolverOutput<P>)
        requires
            old(self).ready(&p),
        ensures
            values_ordered::<P::Z>() ==> exists|events: Seq<SolverEvent<P>>|
                #[trigger] old(self).reports(p, events) && out == absorbed_all(
                    nothing_known::<P>(),
                    events,
                ),
    {
        absorb_all(self.solve(p))
    }
}

/// A way to solve one problem by another: the first is reduced to the second
/// and the events of the second are brought back.
///
/// The spec functions are what the contracts of the methods speak of; an
/// implementation gives them their bodies.
pub trait Reducer<PA: Problem, PB: Problem> {
    open spec fn spec_reduce(p: PA) -> PB {
        arbitrary()
    }

    open spec fn spec_retrieve(se: SolverEvent<PB>) -> Option<SolverEvent<PA>> {
        arbitrary()
    }

    fn reduce(p: PA) -> (r: PB)
        ensures
            r == Self::spec_reduce(p),
    ;

    /// The event of the first problem that an event of the second stands for,
    /// if any.
    fn retrieve(se: SolverEvent<PB>) -> (r: Option<SolverEvent<PA>>)
        ensures
            r == Self::spec_retrieve(se),
    ;
}

/// The events of the first problem that events of the second stand for, in
/// order.
pub open spec fn retrieved<PA: Problem, PB: Problem, R: Reducer<PA, PB>>(
    events: Seq<SolverEvent<PB>>,
) -> Seq<SolverEvent<PA>>
    decreases events.len(),
{
    if events.len() == 0 {
        Seq::empty()
    } else {
        let front = retrieved::<PA, PB, R>(events.drop_last());
        match R::spec_retrieve(events.last()) {
            Some(e) => front.push(e),
            None => front,
        }
    }
}

/// A solver for `PA` made of a reduction to `PB` and a solver for `PB`.
pub struct ReductionSolver<PA: Problem, PB: Problem, R: Reducer<PA, PB>, S: Solver<PB>> {
    pub s: S,
    pub _r: PhantomData<R>,
    pub _pa: PhantomData<PA>,
    pub _pb: PhantomData<PB>,
}

impl<PA: Problem, PB: Problem, R: Reducer<PA, PB>, S: Solver<PB>> ReductionSolver<PA, PB, R, S> {
    pub fn new(s: S) -> (r: Self)
        ensures
            r.s == s,
    {
        ReductionSolver { s, _r: PhantomData, _pa: PhantomData, _pb: PhantomData }
    }
}

impl<PA: Problem, PB: Problem, R: Reducer<PA, PB>, S: Solver<PB>> Solver<PA> for ReductionSolver<
    PA,
    PB,
    R,
    S,
> {
    open spec fn ready(&self, p: &PA) -> bool {
        self.s.ready(&R::spec_reduce(*p))
    }

    /// The events are those that the inner solver can report on the reduced
    /// problem, brought back.
    open spec fn reports(&self, p: PA, events: Seq<SolverEvent<PA>>) -> bool {
        exists|inner: Seq<SolverEvent<PB>>|
            #[trigger] self.s.reports(R::spec_reduce(p), inner) && events == retrieved::<PA, PB, R>(
                inner,
            )
    }

    fn solve(&mut self, pa: PA) -> (events: Vec<SolverEvent<PA>>) {
        let pb = R::reduce(pa);
        let inner = self.s.solve(pb);
        let ghost all = inner@;
        let mut events: Vec<SolverEvent<PA>> = Vec::new();
        for se in it: inner
            invariant
                it.seq() == all,
                events@ == retrieved::<PA, PB, R>(all.take(it.index())),
        {
            proof {
                assert(all.take(it.index() + 1).drop_last() == all.take(it.index()));
            }
            match R::retrieve(se) {
                Some(e) => {
                    events.push(e);
                },
                None => {},
            }
        }
        proof {
            assert(all.take(all.len() as int) == all);
        }
        events
    }
}

} // verus!
