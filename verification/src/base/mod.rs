use vstd::prelude::*;
use crate::base::rng::Rng;
use crate::base::stop_condition::{polls_of, StopCondition};

pub mod neighbour_space;
pub mod rng;
pub mod stop_condition;
pub mod tree_space;

verus! {

/// A totally ordered minimisation value.
///
/// The order is the order of `key`. Two sentinels bracket every value:
/// `unbounded` lies at or below each value and `unfeas` at or above, and the
/// two differ. A value is feasible when it lies strictly below `unfeas`
/// and bounded when it lies strictly above `unbounded`.
///
/// The spec functions are what the contracts of the methods speak of; an
/// implementation gives them their bodies.
pub trait Objective: Copy {
    /// Position of the value in the total order; smaller is better.
    open spec fn key(&self) -> int {
        arbitrary()
    }

    /// Integer projection of the value, read by energy-driven acceptance rules.
    open spec fn spec_value(&self) -> int {
        arbitrary()
    }

    /// The sentinel that no feasible value reaches.
    open spec fn spec_unfeas() -> Self {
        arbitrary()
    }

    /// The sentinel that lies below every bounded value.
    open spec fn spec_unbounded() -> Self {
        arbitrary()
    }

    /// Returns the sentinel of an infeasible objective.
    fn unfeas() -> (r: Self)
        ensures
            r == Self::spec_unfeas(),
            Self::spec_unbounded().key() < r.key(),
    ;

    /// Returns the sentinel of an unbounded objective.
    fn unbounded() -> (r: Self)
        ensures
            r == Self::spec_unbounded(),
            r.key() < Self::spec_unfeas().key(),
    ;

    /// True if the value is feasible.
    fn is_feas(&self) -> (b: bool)
        ensures
            b == (self.key() < Self::spec_unfeas().key()),
            self.key() <= Self::spec_unfeas().key(),
    ;

    /// True if the value is bounded.
    fn is_bounded(&self) -> (b: bool)
        ensures
            b == (Self::spec_unbounded().key() < self.key()),
            Self::spec_unbounded().key() <= self.key(),
    ;

    /// Strict comparison in the total order.
    fn less(&self, other: &Self) -> (b: bool)
        ensures
            b == (self.key() < other.key()),
    ;

    /// The integer projection of the value.
    fn value(&self) -> (v: i64)
        ensures
            v == self.spec_value(),
    ;
}

/// A value is feasible when it lies strictly below the infeasible sentinel.
pub open spec fn is_feas<O: Objective>(o: O) -> bool {
    o.key() < O::spec_unfeas().key()
}

/// A value is bounded when it lies strictly above the unbounded sentinel.
pub open spec fn is_bounded<O: Objective>(o: O) -> bool {
    O::spec_unbounded().key() < o.key()
}

/// The better of an incumbent and a candidate: the candidate only when it is
/// strictly smaller.
pub open spec fn better<O: Objective>(incumbent: O, candidate: O) -> O {
    if candidate.key() < incumbent.key() {
        candidate
    } else {
        incumbent
    }
}

/// The larger of an incumbent bound and a candidate: the candidate only when
/// it is strictly larger.
pub open spec fn tighter<O: Objective>(incumbent: O, candidate: O) -> O {
    if candidate.key() > incumbent.key() {
        candidate
    } else {
        incumbent
    }
}

/// A minimisation problem over a solution space.
///
/// The spec functions are what the contracts of the methods speak of; an
/// implementation gives them their bodies.
pub trait Problem: Clone {
    /// Solution space.
    type Sol: Clone;

    type Obj: Objective;

    /// The function to minimise.
    open spec fn spec_obj(&self, sol: &Self::Sol) -> Self::Obj {
        arbitrary()
    }

    /// Evaluates the function to minimise.
    fn obj(&self, sol: &Self::Sol) -> (o: Self::Obj)
        ensures
            o == self.spec_obj(sol),
    ;

    /// False exactly when the objective of `sol` is infeasible.
    fn is_feasible(&self, sol: &Self::Sol) -> (b: bool)
        ensures
            b == is_feas(self.spec_obj(sol)),
    ;
}

/// Between the sentinels: a value that is feasible and bounded lies strictly
/// above `unbounded` and strictly below `unfeas`, and `unbounded` lies
/// strictly below `unfeas`.
pub proof fn lemma_sentinels_bracket<O: Objective>(v: O)
    requires
        is_feas(v),
        is_bounded(v),
    ensures
        O::spec_unbounded().key() < v.key() < O::spec_unfeas().key(),
        O::spec_unbounded().key() < O::spec_unfeas().key(),
{
}

/// A problem that stands for another: what is found for it can be lifted
/// back to the problem it was reduced from.
///
/// The spec functions are what the contracts of the methods speak of; an
/// implementation gives them their bodies.
pub trait Reduction<P: Problem>: Problem {
    open spec fn spec_reduce_from(p: &P) -> Self {
        arbitrary()
    }

    open spec fn spec_lift_solution_to(&self, sol: Self::Sol) -> P::Sol {
        arbitrary()
    }

    open spec fn spec_lift_obj_to(&self, obj: Self::Obj) -> P::Obj {
        arbitrary()
    }

    /// The problem that stands for `p`.
    fn reduce_from(p: &P) -> (r: Self)
        ensures
            r == Self::spec_reduce_from(p),
    ;

    /// The solution of the problem reduced from that `sol` stands for.
    fn lift_solution_to(&self, sol: Self::Sol) -> (s: P::Sol)
        ensures
            s == self.spec_lift_solution_to(sol),
    ;

    /// The objective, in the units of the problem reduced from, that `obj`
    /// stands for.
    fn lift_obj_to(&self, obj: Self::Obj) -> (o: P::Obj)
        ensures
            o == self.spec_lift_obj_to(obj),
    ;
}

/// Round trip through an identity reduction. Where reducing a problem gives
/// the problem itself and lifting through it leaves a solution and its
/// objective as they are, lifting the pair through the problem reduced once
/// more leaves it as it is again.
pub proof fn lemma_identity_reduction_round_trip<P: Reduction<P>>(p: P, sol: P::Sol, obj: P::Obj)
    requires
        P::spec_reduce_from(&p) == p,
        p.spec_lift_solution_to(sol) == sol,
        p.spec_lift_obj_to(obj) == obj,
    ensures
        ({
            let reduced = P::spec_reduce_from(&p);
            let lifted = (reduced.spec_lift_solution_to(sol), reduced.spec_lift_obj_to(obj));
            let again = P::spec_reduce_from(&reduced);
            &&& again == p
            &&& (again.spec_lift_solution_to(lifted.0), again.spec_lift_obj_to(lifted.1)) == lifted
            &&& lifted == (sol, obj)
        }),
{
}

/// A source of problem instances with a certain distribution: the instance
/// is a function of the generator of random words.
///
/// The spec functions are what the contracts of the methods speak of; an
/// implementation gives them their bodies.
pub trait ProblemGenerator<P: Problem>: Clone {
    /// The instance drawn and the generator after the draw.
    open spec fn spec_generate<R: Rng>(&self, rng: R) -> (P, R) {
        arbitrary()
    }

    fn generate<R: Rng>(&self, rng: &mut R) -> (p: P)
        ensures
            (p, *final(rng)) == self.spec_generate(*old(rng)),
    ;
}

/// The sink through which an engine reports candidates and bounds; it owns
/// the best solution found so far.
///
/// `spec_best_obj` is the objective of the best solution kept, or the
/// infeasible sentinel while there is none; `spec_best_sol` is that solution
/// and `spec_dual_bound` the dual bound kept. `marked` says how a call of
/// `iter` can leave the keeper.
///
/// The spec functions are what the contracts of the methods speak of; an
/// implementation gives them their bodies.
pub trait SolutionKeeper<P: Problem> {
    /// Objective of the best solution kept so far.
    open spec fn spec_best_obj(&self) -> P::Obj {
        arbitrary()
    }

    /// The best solution kept so far, if any.
    open spec fn spec_best_sol(&self) -> Option<P::Sol> {
        arbitrary()
    }

    /// The dual bound kept: the largest offered so far.
    open spec fn spec_dual_bound(&self) -> P::Obj {
        arbitrary()
    }

    /// What the keeper maintains of itself: every method keeps it, and so
    /// does every run of an engine.
    open spec fn inv(&self) -> bool {
        true
    }

    /// Whether a call of `iter` can leave the keeper as `after`.
    open spec fn marked(&self, after: &Self) -> bool {
        true
    }

    /// Offers a candidate. If it is strictly better than the best kept, a
    /// clone of it is kept with its objective; else nothing changes.
    fn add_solution(&mut self, sol: &P::Sol, obj: P::Obj)
        ensures
            final(self).spec_best_obj() == better(old(self).spec_best_obj(), obj),
            if obj.key() < old(self).spec_best_obj().key() {
                final(self).spec_best_sol() matches Some(s) && cloned(*sol, s)
            } else {
                final(self).spec_best_sol() == old(self).spec_best_sol()
            },
            final(self).spec_dual_bound() == old(self).spec_dual_bound(),
            old(self).inv() ==> final(self).inv(),
    ;

    /// Offers a candidate whose solution `f` builds on demand. If the
    /// objective is strictly better than the best kept, what `f` builds is
    /// kept with it; else nothing changes.
    fn add_solution_fn<F: FnOnce() -> P::Sol>(&mut self, f: F, obj: P::Obj)
        requires
            f.requires(()),
        ensures
            final(self).spec_best_obj() == better(old(self).spec_best_obj(), obj),
            if obj.key() < old(self).spec_best_obj().key() {
                final(self).spec_best_sol() matches Some(s) && f.ensures((), s)
            } else {
                final(self).spec_best_sol() == old(self).spec_best_sol()
            },
            final(self).spec_dual_bound() == old(self).spec_dual_bound(),
            old(self).inv() ==> final(self).inv(),
    ;

    /// Offers a global dual bound, which is kept if it is strictly larger
    /// than the one kept; the best solution is left as it is.
    fn add_dual_bound(&mut self, db: P::Obj)
        ensures
            final(self).spec_best_obj() == old(self).spec_best_obj(),
            final(self).spec_best_sol() == old(self).spec_best_sol(),
            final(self).spec_dual_bound() == tighter(old(self).spec_dual_bound(), db),
            old(self).inv() ==> final(self).inv(),
    ;

    /// Marks the start of one engine iteration; the best solution and the
    /// dual bound are left as they are.
    fn iter(&mut self)
        ensures
            old(self).marked(final(self)),
            final(self).spec_best_obj() == old(self).spec_best_obj(),
            final(self).spec_best_sol() == old(self).spec_best_sol(),
            final(self).spec_dual_bound() == old(self).spec_dual_bound(),
            old(self).inv() ==> final(self).inv(),
    ;

    /// A clone of the best solution found so far with its objective, if any.
    fn best_solution(&self) -> (r: Option<(P::Sol, P::Obj)>)
        ensures
            match r {
                Some(b) => {
                    &&& b.1 == self.spec_best_obj()
                    &&& self.spec_best_sol() matches Some(s) && cloned(s, b.0)
                },
                None => {
                    &&& self.spec_best_obj() == P::Obj::spec_unfeas()
                    &&& self.spec_best_sol() is None
                },
            },
    ;

    /// Objective of the best solution found so far; the infeasible sentinel
    /// when there is none.
    fn best_obj(&self) -> (o: P::Obj)
        ensures
            o == self.spec_best_obj(),
    {
        match self.best_solution() {
            Some(b) => b.1,
            None => P::Obj::unfeas(),
        }
    }
}

/// The keeper `after` differs from `before` as a strict improvement of its
/// best objective asks: where the best objective has fallen, it holds a
/// clone of `moved_to`; where not, the solution it held. The dual bound is
/// as it was.
pub open spec fn follows<P: Problem, SK: SolutionKeeper<P>>(
    before: SK,
    moved_to: P::Sol,
    after: SK,
) -> bool {
    &&& after.spec_dual_bound() == before.spec_dual_bound()
    &&& if after.spec_best_obj().key() < before.spec_best_obj().key() {
        after.spec_best_sol() matches Some(s) && cloned(moved_to, s)
    } else {
        after.spec_best_sol() == before.spec_best_sol()
    }
}

/// The solution of a run that the keeper took last, after `k` rounds. The
/// keeper's best objective after round `i` is `kept(i)` and the solution that
/// the run is at then is `sols(i)`; `first` is what the keeper took before
/// the first round. The keeper takes the solution of each round at which its
/// best objective falls. `None` stands for the solution that the keeper held
/// before the run.
pub open spec fn taken_after<P: Problem>(
    first: Option<P::Sol>,
    kept: spec_fn(nat) -> P::Obj,
    sols: spec_fn(nat) -> P::Sol,
    k: nat,
) -> Option<P::Sol>
    decreases k,
{
    if k == 0 {
        first
    } else if kept(k).key() < kept((k - 1) as nat).key() {
        Some(sols(k))
    } else {
        taken_after::<P>(first, kept, sols, (k - 1) as nat)
    }
}

/// The keeper's solution after a run of which it took `taken` last: a clone
/// of that, or the solution it held before if it took none.
pub open spec fn holds_clone_of<P: Problem>(
    taken: Option<P::Sol>,
    sol_before: Option<P::Sol>,
    sol_after: Option<P::Sol>,
) -> bool {
    match taken {
        Some(source) => sol_after matches Some(s) && cloned(source, s),
        None => sol_after == sol_before,
    }
}

/// One round more: a keeper that holds what `k` rounds left it with, and
/// then follows round `k + 1`, holds what `k + 1` rounds leave it with.
pub proof fn lemma_keeper_follows<P: Problem, SK: SolutionKeeper<P>>(
    first: Option<P::Sol>,
    kept: spec_fn(nat) -> P::Obj,
    sols: spec_fn(nat) -> P::Sol,
    k: nat,
    sol_before: Option<P::Sol>,
    before: SK,
    after: SK,
)
    requires
        holds_clone_of::<P>(taken_after::<P>(first, kept, sols, k), sol_before, before.spec_best_sol()),
        before.spec_best_obj() == kept(k),
        after.spec_best_obj() == kept(k + 1),
        follows(before, sols(k + 1), after),
    ensures
        holds_clone_of::<P>(
            taken_after::<P>(first, kept, sols, k + 1),
            sol_before,
            after.spec_best_sol(),
        ),
{
    let n = k + 1;
    assert(kept((n - 1) as nat) == kept(k));
    assert(taken_after::<P>(first, kept, sols, n) == if kept(n).key() < kept((n - 1) as nat).key() {
        Some(sols(n))
    } else {
        taken_after::<P>(first, kept, sols, (n - 1) as nat)
    });
}

/// A keeper that holds the best solution and the largest dual bound offered.
pub struct SimpleSolutionKeeper<P: Problem> {
    pub best_sol: Option<(P::Sol, P::Obj)>,
    pub dual_bound: P::Obj,
}

impl<P: Problem> SolutionKeeper<P> for SimpleSolutionKeeper<P> {
    open spec fn spec_best_obj(&self) -> P::Obj {
        match self.best_sol {
            Some(b) => b.1,
            None => P::Obj::spec_unfeas(),
        }
    }

    open spec fn spec_best_sol(&self) -> Option<P::Sol> {
        match self.best_sol {
            Some(b) => Some(b.0),
            None => None,
        }
    }

    open spec fn spec_dual_bound(&self) -> P::Obj {
        self.dual_bound
    }

    /// A call of `iter` leaves the keeper as it is.
    open spec fn marked(&self, after: &Self) -> bool {
        *after == *self
    }

    fn add_solution(&mut self, sol: &P::Sol, obj: P::Obj) {
        let incumbent = self.best_obj();
        if obj.less(&incumbent) {
            self.best_sol = Some((sol.clone(), obj));
        }
    }

    fn add_solution_fn<F: FnOnce() -> P::Sol>(&mut self, f: F, obj: P::Obj) {
        let incumbent = self.best_obj();
        if obj.less(&incumbent) {
            self.best_sol = Some((f(), obj));
        }
    }

    fn add_dual_bound(&mut self, db: P::Obj) {
        if self.dual_bound.less(&db) {
            self.dual_bound = db;
        }
    }

    fn best_solution(&self) -> (r: Option<(P::Sol, P::Obj)>) {
        match &self.best_sol {
            Some(b) => {
                let sol = b.0.clone();
                assert(self.spec_best_sol() == Some(b.0));
                Some((sol, b.1))
            },
            None => {
                assert(self.spec_best_sol() is None);
                None
            },
        }
    }

    fn iter(&mut self) {
    }
}

impl<P: Problem> Default for SimpleSolutionKeeper<P> {
    /// A keeper with no solution and the unbounded sentinel as dual bound.
    fn default() -> (r: Self)
        ensures
            r.best_sol is None,
            r.dual_bound == P::Obj::spec_unbounded(),
    {
        SimpleSolutionKeeper { best_sol: None, dual_bound: P::Obj::unbounded() }
    }
}

/// A search engine for a problem.
///
/// `ready` is what a run asks of the engine and the problem; `outcome` relates
/// the engine, the stop condition and what the keeper holds before a run to
/// the engine and what the keeper holds after it. A run reaches the keeper
/// through its methods alone, so what the keeper maintains of itself holds
/// after the run as before.
pub trait Solver<P: Problem>: Clone {
    /// What `solve` asks of the engine before a run.
    open spec fn ready(&self, p: &P) -> bool {
        true
    }

    /// What `solve` promises: `self`, `best_before`, `sol_before` and
    /// `dual_before` are the engine and the keeper's best objective, solution
    /// and dual bound before the run, `after`, `best_after`, `sol_after` and
    /// `dual_after` those after it, and `polls` holds of the records of polls
    /// that the stop condition of the run can be put through (see
    /// `polls_of`).
    open spec fn outcome(
        &self,
        p: &P,
        polls: spec_fn(spec_fn(nat) -> P::Obj, nat, Option<bool>) -> bool,
        best_before: P::Obj,
        sol_before: Option<P::Sol>,
        dual_before: P::Obj,
        after: &Self,
        best_after: P::Obj,
        sol_after: Option<P::Sol>,
        dual_after: P::Obj,
    ) -> bool {
        true
    }

    /// Whether the engine is ready for a run on `p`.
    fn is_ready(&self, p: &P) -> (b: bool)
        ensures
            b == self.ready(p),
    ;

    /// Runs the engine on `p` until `stop` fires or the search is exhausted,
    /// reporting every candidate to `sk`.
    fn solve<SK: SolutionKeeper<P>, S: StopCondition<P::Obj>>(
        &mut self,
        p: P,
        sk: &mut SK,
        stop: S,
    )
        requires
            old(self).ready(&p),
        ensures
            old(self).outcome(
                &p,
                polls_of(stop),
                old(sk).spec_best_obj(),
                old(sk).spec_best_sol(),
                old(sk).spec_dual_bound(),
                final(self),
                final(sk).spec_best_obj(),
                final(sk).spec_best_sol(),
                final(sk).spec_dual_bound(),
            ),
            old(sk).inv() ==> final(sk).inv(),
    ;
}

} // verus!
