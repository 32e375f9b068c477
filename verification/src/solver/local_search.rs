use vstd::prelude::*;
use crate::base::neighbour_space::{NeighbourhoodIndirect, NeighbourhoodIndirectRandom};
use crate::base::rng::Rng;
use crate::base::stop_condition::{
    answered, lemma_went_on_extends, polls_of, went_on, StopCondition,
};
use crate::base::{
    better, follows, holds_clone_of, lemma_keeper_follows, taken_after, Objective, Problem,
    SolutionKeeper, Solver,
};
use crate::solver::MAX_ROUNDS;

verus! {

/// The objectives of the neighbours of `sol`, in the order of enumeration.
pub open spec fn neighbour_objs<P: Problem, N: NeighbourhoodIndirect<P>>(
    ns: &N,
    p: &P,
    sol: P::Sol,
) -> Seq<P::Obj> {
    let ids = ns.spec_neighbourhood_id(p, &sol);
    Seq::new(ids.len(), |i: int| p.spec_obj(&ns.spec_neighbour(p, sol, ids[i])))
}

/// `i` is the place of the steepest strict improvement on `incumbent`: the
/// first of the smallest objectives in `objs`, and smaller than `incumbent`.
pub open spec fn is_steepest<O: Objective>(objs: Seq<O>, incumbent: O, i: int) -> bool {
    &&& 0 <= i < objs.len()
    &&& objs[i].key() < incumbent.key()
    &&& forall|j: int| 0 <= j < objs.len() ==> objs[i].key() <= (#[trigger] objs[j]).key()
    &&& forall|j: int| 0 <= j < i ==> objs[i].key() < (#[trigger] objs[j]).key()
}

/// No objective in `objs` improves strictly on `incumbent`.
pub open spec fn is_local_optimum<O: Objective>(objs: Seq<O>, incumbent: O) -> bool {
    forall|j: int| 0 <= j < objs.len() ==> (#[trigger] objs[j]).key() >= incumbent.key()
}

/// The place of the steepest strict improvement on `incumbent` in `objs`, if
/// there is one.
pub open spec fn steepest_index<O: Objective>(objs: Seq<O>, incumbent: O) -> Option<int> {
    if exists|i: int| is_steepest(objs, incumbent, i) {
        Some(choose|i: int| is_steepest(objs, incumbent, i))
    } else {
        None
    }
}

/// One round of steepest descent from `state`, a solution with its objective:
/// the steepest strictly improving neighbour, or `state` itself at a local
/// optimum.
pub open spec fn descent_step<P: Problem, N: NeighbourhoodIndirect<P>>(
    ns: &N,
    p: &P,
    state: (P::Sol, P::Obj),
) -> (P::Sol, P::Obj) {
    let ids = ns.spec_neighbourhood_id(p, &state.0);
    let objs = neighbour_objs(ns, p, state.0);
    match steepest_index(objs, state.1) {
        Some(i) => (ns.spec_neighbour(p, state.0, ids[i]), objs[i]),
        None => state,
    }
}

/// The state of steepest descent after `k` rounds from `state`.
pub open spec fn descent<P: Problem, N: NeighbourhoodIndirect<P>>(
    ns: &N,
    p: &P,
    state: (P::Sol, P::Obj),
    k: nat,
) -> (P::Sol, P::Obj)
    decreases k,
{
    if k == 0 {
        state
    } else {
        descent_step(ns, p, descent(ns, p, state, (k - 1) as nat))
    }
}

/// At most one place is the steepest improvement.
pub proof fn lemma_steepest_unique<O: Objective>(objs: Seq<O>, incumbent: O, i: int, j: int)
    requires
        is_steepest(objs, incumbent, i),
        is_steepest(objs, incumbent, j),
    ensures
        i == j,
{
    if i < j {
        assert(objs[j].key() < objs[i].key());
        assert(objs[i].key() <= objs[j].key());
    } else if j < i {
        assert(objs[i].key() < objs[j].key());
        assert(objs[j].key() <= objs[i].key());
    }
}

/// Where some objective improves strictly on the incumbent, one place is the
/// steepest improvement.
pub proof fn lemma_improvement_has_steepest<O: Objective>(objs: Seq<O>, incumbent: O, j: int)
    requires
        0 <= j < objs.len(),
        objs[j].key() < incumbent.key(),
    ensures
        steepest_index(objs, incumbent) is Some,
    decreases objs.len(),
{
    let n = objs.len() as int;
    if n == 1 {
        assert(is_steepest(objs, incumbent, 0));
    } else {
        let front = objs.drop_last();
        let last = objs[n - 1];
        if exists|a: int| 0 <= a < n - 1 && (#[trigger] objs[a]).key() < incumbent.key() {
            let a = choose|a: int| 0 <= a < n - 1 && (#[trigger] objs[a]).key() < incumbent.key();
            lemma_improvement_has_steepest(front, incumbent, a);
            let i = steepest_index(front, incumbent).unwrap();
            assert(is_steepest(front, incumbent, i));
            assert forall|b: int| 0 <= b < n - 1 implies objs[i].key() <= (#[trigger] objs[b]).key() by {
                assert(front[b] == objs[b]);
            }
            assert forall|b: int| 0 <= b < i implies objs[i].key() < (#[trigger] objs[b]).key() by {
                assert(front[b] == objs[b]);
            }
            if last.key() < objs[i].key() {
                assert(is_steepest(objs, incumbent, n - 1));
            } else {
                assert(is_steepest(objs, incumbent, i));
            }
        } else {
            assert(is_steepest(objs, incumbent, n - 1));
        }
    }
}

/// No place is the steepest improvement exactly at a local optimum.
pub proof fn lemma_local_optimum_has_no_steepest<O: Objective>(objs: Seq<O>, incumbent: O)
    ensures
        steepest_index(objs, incumbent) is None <==> is_local_optimum(objs, incumbent),
{
    if is_local_optimum(objs, incumbent) {
        assert forall|i: int| !is_steepest(objs, incumbent, i) by {
            if 0 <= i < objs.len() {
                assert(objs[i].key() >= incumbent.key());
            }
        }
    } else {
        let j = choose|j: int| 0 <= j < objs.len() && (#[trigger] objs[j]).key() < incumbent.key();
        lemma_improvement_has_steepest(objs, incumbent, j);
    }
}

/// Once steepest descent is at a local optimum it stays there.
pub proof fn lemma_descent_rests<P: Problem, N: NeighbourhoodIndirect<P>>(
    ns: &N,
    p: &P,
    state: (P::Sol, P::Obj),
    j: nat,
    k: nat,
)
    requires
        j <= k,
        is_local_optimum(neighbour_objs(ns, p, descent(ns, p, state, j).0), descent(ns, p, state, j).1),
    ensures
        descent(ns, p, state, k) == descent(ns, p, state, j),
    decreases k,
{
    if j < k {
        lemma_descent_rests(ns, p, state, j, (k - 1) as nat);
        let at = descent(ns, p, state, j);
        let objs = neighbour_objs(ns, p, at.0);
        assert forall|i: int| !is_steepest(objs, at.1, i) by {
            if 0 <= i < objs.len() {
                assert(objs[i].key() >= at.1.key());
            }
        }
    }
}

/// Hill climbing that moves, in each round, to the best neighbour if it
/// improves strictly on the current solution, and ends at a local optimum.
#[derive(Clone)]
pub struct SteepestDescentLocalSearch<P: Problem, N: NeighbourhoodIndirect<P>> {
    pub initial_solution: Option<(P::Sol, P::Obj)>,
    pub ns: N,
}

impl<P: Problem, N: NeighbourhoodIndirect<P>> SteepestDescentLocalSearch<P, N> {
    /// An engine that starts from `initial_solution`, a solution with its
    /// objective.
    pub fn new(ns: N, initial_solution: (P::Sol, P::Obj)) -> (r: Self)
        ensures
            r.ns == ns,
            r.initial_solution == Some(initial_solution),
    {
        SteepestDescentLocalSearch { initial_solution: Some(initial_solution), ns }
    }

    /// The steepest strictly improving move from `sol`, whose objective is
    /// `obj`, with the objective it leads to; `None` at a local optimum.
    pub fn steepest_move(ns: &N, p: &P, sol: &P::Sol, obj: P::Obj) -> (r: Option<
        (N::NeighbourId, P::Obj),
    >)
        ensures
            match steepest_index(neighbour_objs(ns, p, *sol), obj) {
                Some(i) => r == Some(
                    (ns.spec_neighbourhood_id(p, sol)[i], neighbour_objs(ns, p, *sol)[i]),
                ),
                None => r is None,
            },
    {
        let mut ids = ns.neighbourhood_id(p, sol);
        let ghost objs = neighbour_objs(ns, p, *sol);
        let ghost all = ids@;
        let mut best: Option<usize> = None;
        let mut best_nobj = obj;
        let mut i: usize = 0;
        while i < ids.len()
            invariant
                0 <= i <= ids.len(),
                ids@ == all,
                all == ns.spec_neighbourhood_id(p, sol),
                objs == neighbour_objs(ns, p, *sol),
                objs.len() == all.len(),
                best_nobj.key() <= obj.key(),
                forall|j: int| 0 <= j < i ==> best_nobj.key() <= (#[trigger] objs[j]).key(),
                match best {
                    Some(b) => {
                        &&& b < i
                        &&& best_nobj == objs[b as int]
                        &&& best_nobj.key() < obj.key()
                        &&& forall|j: int| 0 <= j < b ==> best_nobj.key() < (#[trigger] objs[j]).key()
                    },
                    None => best_nobj == obj,
                },
            decreases ids.len() - i,
        {
            let nobj = ns.neighbour_obj(p, sol, &ids[i]);
            assert(nobj == objs[i as int]);
            if nobj.less(&best_nobj) {
                best_nobj = nobj;
                best = Some(i);
            }
            i += 1;
        }
        match best {
            Some(b) => {
                let nid = ids.swap_remove(b);
                proof {
                    assert(is_steepest(objs, obj, b as int));
                    lemma_steepest_unique(objs, obj, b as int, steepest_index(objs, obj).unwrap());
                }
                Some((nid, best_nobj))
            },
            None => {
                assert forall|i: int| !is_steepest(objs, obj, i) by {
                    if 0 <= i < objs.len() {
                        assert(best_nobj.key() <= objs[i].key());
                    }
                }
                None
            },
        }
    }

    /// One round from `solution`, whose objective is `obj`: the keeper is
    /// told of the iteration; then the steepest strictly improving move is
    /// taken and the solution moved to is reported with its objective, if
    /// there is such a move. Returns the solution and its objective after the
    /// round, and whether a move was taken.
    pub fn round<SK: SolutionKeeper<P>>(
        ns: &N,
        p: &P,
        solution: P::Sol,
        obj: P::Obj,
        sk: &mut SK,
    ) -> (next: (P::Sol, P::Obj, bool))
        ensures
            (next.0, next.1) == descent_step(ns, p, (solution, obj)),
            next.2 == (steepest_index(neighbour_objs(ns, p, solution), obj) is Some),
            next.2 ==> next.1.key() < obj.key(),
            final(sk).spec_best_obj() == if next.2 {
                better(old(sk).spec_best_obj(), next.1)
            } else {
                old(sk).spec_best_obj()
            },
            follows(*old(sk), next.0, *final(sk)),
            old(sk).inv() ==> final(sk).inv(),
    {
        sk.iter();
        match Self::steepest_move(ns, p, &solution, obj) {
            Some(m) => {
                proof {
                    let i = steepest_index(neighbour_objs(ns, p, solution), obj).unwrap();
                    assert(is_steepest(neighbour_objs(ns, p, solution), obj, i));
                }
                let moved = ns.neighbour(p, solution, m.0);
                sk.add_solution(&moved, m.1);
                (moved, m.1, true)
            },
            None => (solution, obj, false),
        }
    }
}

impl<P: Problem, N: NeighbourhoodIndirect<P>> Solver<P> for SteepestDescentLocalSearch<P, N> {
    /// A run consumes the initial solution, so the engine must still hold it.
    open spec fn ready(&self, p: &P) -> bool {
        self.initial_solution is Some
    }

    /// The run reports the initial solution and then each solution that
    /// steepest descent moves to, through some number of rounds. Before each
    /// round the stop condition is polled with the keeper's best objective,
    /// and all these polls answered "go on". The run ended because the
    /// rounds of a run were used up, or the next poll answered "halt", or the
    /// last round found a local optimum. The keeper ends with the better of
    /// the objective it held and the objective reached, with a clone of the
    /// solution that it took last, and with the dual bound it held.
    open spec fn outcome(
        &self,
        p: &P,
        polls: spec_fn(spec_fn(nat) -> P::Obj, nat, Option<bool>) -> bool,
        best_before: P::Obj,
        sol_before: Option<P::Sol>,
        dual_before: P::Obj,
        after: &Self,
        best_after: P::Obj,
        sol_after: Option<P::Sol>,
        dual_after: P::Obj,
    ) -> bool {
        let init = self.initial_solution.unwrap();
        let kept = |i: nat| better(best_before, descent(&self.ns, p, init, i).1);
        let sols = |i: nat| descent(&self.ns, p, init, i).0;
        let first = if init.1.key() < best_before.key() {
            Some(init.0)
        } else {
            None
        };
        &&& after.initial_solution is None
        &&& after.ns == self.ns
        &&& dual_after == dual_before
        &&& exists|k: nat|
            {
                &&& k <= MAX_ROUNDS
                &&& best_after == #[trigger] kept(k)
                &&& holds_clone_of::<P>(taken_after::<P>(first, kept, sols, k), sol_before, sol_after)
                &&& {
                    ||| k == MAX_ROUNDS && polls(kept, k, None)
                    ||| polls(kept, k, Some(true))
                    ||| k >= 1 && polls(kept, k, None) && steepest_index(
                        neighbour_objs(&self.ns, p, descent(&self.ns, p, init, (k - 1) as nat).0),
                        descent(&self.ns, p, init, (k - 1) as nat).1,
                    ) is None
                }
            }
    }

    fn is_ready(&self, p: &P) -> (b: bool) {
        self.initial_solution.is_some()
    }

    fn solve<SK: SolutionKeeper<P>, S: StopCondition<P::Obj>>(
        &mut self,
        p: P,
        sk: &mut SK,
        stop: S,
    ) {
        let ghost start = stop;
        let mut stop = stop;
        let ghost init = self.initial_solution.unwrap();
        let ghost best_before = sk.spec_best_obj();
        let ghost sol_before = sk.spec_best_sol();
        let ghost kept = |i: nat| better(best_before, descent(&self.ns, &p, init, i).1);
        let ghost sols = |i: nat| descent(&self.ns, &p, init, i).0;
        let ghost first = if init.1.key() < best_before.key() {
            Some(init.0)
        } else {
            None
        };
        let ghost polls = polls_of::<P::Obj, S>(start);
        let (mut solution, mut obj) = self.initial_solution.take().unwrap();
        sk.add_solution(&solution, obj);
        let mut rounds: u64 = 0;
        loop
            invariant_except_break
                went_on(start, kept, rounds as nat, stop),
            invariant
                self.initial_solution is None,
                self.ns == old(self).ns,
                kept == |i: nat| better(best_before, descent(&self.ns, &p, init, i).1),
                sols == |i: nat| descent(&self.ns, &p, init, i).0,
                polls == polls_of::<P::Obj, S>(start),
                rounds <= MAX_ROUNDS,
                old(sk).inv() ==> sk.inv(),
                sk.spec_dual_bound() == old(sk).spec_dual_bound(),
                (solution, obj) == descent(&self.ns, &p, init, rounds as nat),
                sk.spec_best_obj() == kept(rounds as nat),
                holds_clone_of::<P>(
                    taken_after::<P>(first, kept, sols, rounds as nat),
                    sol_before,
                    sk.spec_best_sol(),
                ),
            ensures
                (rounds == MAX_ROUNDS && polls(kept, rounds as nat, None)) || polls(
                    kept,
                    rounds as nat,
                    Some(true),
                ) || (rounds >= 1 && polls(kept, rounds as nat, None) && steepest_index(
                    neighbour_objs(
                        &self.ns,
                        &p,
                        descent(&self.ns, &p, init, (rounds - 1) as nat).0,
                    ),
                    descent(&self.ns, &p, init, (rounds - 1) as nat).1,
                ) is None),
            decreases MAX_ROUNDS - rounds,
        {
            if rounds == MAX_ROUNDS {
                assert(polls(kept, rounds as nat, None));
                break ;
            }
            let primal = sk.best_obj();
            let ghost before = stop;
            let halt = stop.stop(primal, P::Obj::unbounded());
            if halt {
                proof {
                    assert(before.polled(kept(rounds as nat), P::Obj::spec_unbounded(), true, &stop));
                    assert(answered(before, kept(rounds as nat), true));
                    assert(polls(kept, rounds as nat, Some(true)));
                }
                break ;
            }
            proof {
                assert(descent(&self.ns, &p, init, (rounds + 1) as nat) == descent_step(
                    &self.ns,
                    &p,
                    descent(&self.ns, &p, init, rounds as nat),
                ));
                assert(before.polled(kept(rounds as nat), P::Obj::spec_unbounded(), false, &stop));
                lemma_went_on_extends(start, kept, rounds as nat, before, stop);
            }
            let ghost keeper = *sk;
            let next = Self::round(&self.ns, &p, solution, obj, sk);
            proof {
                assert(sols((rounds + 1) as nat) == next.0);
                assert(kept((rounds + 1) as nat) == better(best_before, next.1));
                lemma_keeper_follows::<P, SK>(
                    first,
                    kept,
                    sols,
                    rounds as nat,
                    sol_before,
                    keeper,
                    *sk,
                );
            }
            solution = next.0;
            obj = next.1;
            rounds = rounds + 1;
            if !next.2 {
                assert(polls(kept, rounds as nat, None));
                break ;
            }
        }
    }
}

/// One round of first-improving random search from `state`, a solution with
/// its objective and the generator: a move is sampled and priced, and taken
/// only if it improves strictly.
pub open spec fn climb_step<P: Problem, N: NeighbourhoodIndirectRandom<P>, R: Rng>(
    ns: &N,
    p: &P,
    state: (P::Sol, P::Obj, R),
) -> (P::Sol, P::Obj, R) {
    let sampled = ns.spec_random_neighbour_id(p, &state.0, state.2);
    let moved = ns.spec_random_neighbour(p, state.0, sampled.0);
    let nobj = p.spec_obj(&moved);
    if nobj.key() < state.1.key() {
        (moved, nobj, sampled.1)
    } else {
        (state.0, state.1, sampled.1)
    }
}

/// The state of first-improving random search after `k` rounds from `state`.
pub open spec fn climb<P: Problem, N: NeighbourhoodIndirectRandom<P>, R: Rng>(
    ns: &N,
    p: &P,
    state: (P::Sol, P::Obj, R),
    k: nat,
) -> (P::Sol, P::Obj, R)
    decreases k,
{
    if k == 0 {
        state
    } else {
        climb_step(ns, p, climb(ns, p, state, (k - 1) as nat))
    }
}

/// Under a stop condition that never answers "halt", a run of steepest
/// descent ends at a local optimum unless the rounds of a run are used up:
/// the keeper ends with the better of what it held and the objective of a
/// solution that descent reaches and none of whose neighbours improves on.
pub proof fn lemma_unstopped_descent_ends_at_local_optimum<
    P: Problem,
    N: NeighbourhoodIndirect<P>,
    S: StopCondition<P::Obj>,
>(
    engine: SteepestDescentLocalSearch<P, N>,
    p: P,
    stop: S,
    best_before: P::Obj,
    sol_before: Option<P::Sol>,
    dual_before: P::Obj,
    after: SteepestDescentLocalSearch<P, N>,
    best_after: P::Obj,
    sol_after: Option<P::Sol>,
    dual_after: P::Obj,
)
    requires
        engine.initial_solution is Some,
        engine.outcome(
            &p,
            polls_of::<P::Obj, S>(stop),
            best_before,
            sol_before,
            dual_before,
            &after,
            best_after,
            sol_after,
            dual_after,
        ),
        forall|at: S, primal: P::Obj, dual: P::Obj, then: S|
            !(#[trigger] at.polled(primal, dual, true, &then)),
    ensures
        exists|k: nat|
            {
                let end = #[trigger] descent(&engine.ns, &p, engine.initial_solution.unwrap(), k);
                &&& k <= MAX_ROUNDS
                &&& best_after == better(best_before, end.1)
                &&& (k == MAX_ROUNDS || is_local_optimum(neighbour_objs(&engine.ns, &p, end.0), end.1))
            },
{
    let init = engine.initial_solution.unwrap();
    let kept = |i: nat| better(best_before, descent(&engine.ns, &p, init, i).1);
    let sols = |i: nat| descent(&engine.ns, &p, init, i).0;
    let first = if init.1.key() < best_before.key() {
        Some(init.0)
    } else {
        None
    };
    let polls = polls_of::<P::Obj, S>(stop);
    let k = choose|k: nat|
        {
            &&& k <= MAX_ROUNDS
            &&& best_after == #[trigger] kept(k)
            &&& holds_clone_of::<P>(taken_after::<P>(first, kept, sols, k), sol_before, sol_after)
            &&& {
                ||| k == MAX_ROUNDS && polls(kept, k, None)
                ||| polls(kept, k, Some(true))
                ||| k >= 1 && polls(kept, k, None) && steepest_index(
                    neighbour_objs(&engine.ns, &p, descent(&engine.ns, &p, init, (k - 1) as nat).0),
                    descent(&engine.ns, &p, init, (k - 1) as nat).1,
                ) is None
            }
        };
    assert(!polls(kept, k, Some(true))) by {
        assert forall|end: S| !(#[trigger] answered(end, kept(k), true)) by {}
    }
    let end = descent(&engine.ns, &p, init, k);
    assert(kept(k) == better(best_before, end.1));
    if k < MAX_ROUNDS {
        let at = descent(&engine.ns, &p, init, (k - 1) as nat);
        lemma_local_optimum_has_no_steepest(neighbour_objs(&engine.ns, &p, at.0), at.1);
        lemma_descent_rests(&engine.ns, &p, init, (k - 1) as nat, k);
    }
}

/// The keeper's best objective after `k` rounds of first-improving random
/// search from `init` with the generator `rng`, if the keeper held
/// `best_before`: the better of that and the objective reached, or
/// `best_before` itself if no move was taken.
pub open spec fn kept_by_climb<P: Problem, N: NeighbourhoodIndirectRandom<P>, R: Rng>(
    ns: &N,
    p: &P,
    init: (P::Sol, P::Obj),
    rng: R,
    best_before: P::Obj,
    k: nat,
) -> P::Obj {
    let end = climb(ns, p, (init.0, init.1, rng), k);
    if end.1.key() < init.1.key() {
        better(best_before, end.1)
    } else {
        best_before
    }
}

/// Engines that start alike run alike: from one solution, with generators
/// in one state, first-improving random search is in one state after any
/// number of rounds.
pub proof fn lemma_equal_generators_equal_climbs<
    P: Problem,
    N: NeighbourhoodIndirectRandom<P>,
    R: Rng,
>(ns: &N, p: &P, init: (P::Sol, P::Obj), first: R, second: R, k: nat)
    requires
        first == second,
    ensures
        climb(ns, p, (init.0, init.1, first), k) == climb(ns, p, (init.0, init.1, second), k),
{
}

/// Hill climbing that samples one move per round and takes it if it improves
/// strictly. It never halts on a local optimum: only the stop condition, or
/// the round limit, ends a run.
#[derive(Clone)]
pub struct FirstImprovingRandomLocalSearch<
    P: Problem,
    N: NeighbourhoodIndirectRandom<P>,
    R: Rng,
> {
    pub initial_solution: Option<(P::Sol, P::Obj)>,
    pub rng: R,
    pub ns: N,
}

impl<
    P: Problem,
    N: NeighbourhoodIndirectRandom<P>,
    R: Rng,
> FirstImprovingRandomLocalSearch<P, N, R> {
    /// An engine that starts from `initial_solution`, a solution with its
    /// objective, and samples with `rng`.
    pub fn new(ns: N, initial_solution: (P::Sol, P::Obj), rng: R) -> (r: Self)
        ensures
            r.ns == ns,
            r.initial_solution == Some(initial_solution),
            r.rng == rng,
    {
        FirstImprovingRandomLocalSearch { initial_solution: Some(initial_solution), rng, ns }
    }

    /// One round from `solution`, whose objective is `obj`: the keeper is
    /// told of the iteration; then a move is sampled and priced, and taken
    /// and reported if it improves strictly. Returns the solution and its
    /// objective after the round.
    pub fn round<SK: SolutionKeeper<P>>(
        ns: &N,
        p: &P,
        solution: P::Sol,
        obj: P::Obj,
        rng: &mut R,
        sk: &mut SK,
    ) -> (next: (P::Sol, P::Obj))
        ensures
            (next.0, next.1, *final(rng)) == climb_step(ns, p, (solution, obj, *old(rng))),
            next.1.key() <= obj.key(),
            final(sk).spec_best_obj() == if next.1.key() < obj.key() {
                better(old(sk).spec_best_obj(), next.1)
            } else {
                old(sk).spec_best_obj()
            },
            follows(*old(sk), next.0, *final(sk)),
            old(sk).inv() ==> final(sk).inv(),
    {
        sk.iter();
        let nid = ns.random_neighbour_id(p, &solution, rng);
        let nobj = ns.neighbour_obj(p, &solution, &nid);
        if nobj.less(&obj) {
            let moved = ns.random_neighbour(p, solution, nid);
            sk.add_solution(&moved, nobj);
            (moved, nobj)
        } else {
            (solution, obj)
        }
    }
}

impl<P: Problem, N: NeighbourhoodIndirectRandom<P>, R: Rng> Solver<
    P,
> for FirstImprovingRandomLocalSearch<P, N, R> {
    /// A run consumes the initial solution, so the engine must still hold it.
    open spec fn ready(&self, p: &P) -> bool {
        self.initial_solution is Some
    }

    /// The run performs some number of rounds and reports each solution
    /// moved to with its objective. Before each round the stop condition is
    /// polled with the keeper's best objective, and all these polls answered
    /// "go on". The run ended because the rounds of a run were used up or the
    /// next poll answered "halt". The generator is left as the rounds leave
    /// it; the keeper ends with the better of the objective it held and the
    /// objective reached, or unchanged if no move was taken, and with a clone
    /// of the solution that it took last. Its dual bound is left as it is.
    open spec fn outcome(
        &self,
        p: &P,
        polls: spec_fn(spec_fn(nat) -> P::Obj, nat, Option<bool>) -> bool,
        best_before: P::Obj,
        sol_before: Option<P::Sol>,
        dual_before: P::Obj,
        after: &Self,
        best_after: P::Obj,
        sol_after: Option<P::Sol>,
        dual_after: P::Obj,
    ) -> bool {
        let init = self.initial_solution.unwrap();
        let kept = |i: nat| kept_by_climb(&self.ns, p, init, self.rng, best_before, i);
        let sols = |i: nat| climb(&self.ns, p, (init.0, init.1, self.rng), i).0;
        &&& after.initial_solution is None
        &&& after.ns == self.ns
        &&& dual_after == dual_before
        &&& exists|k: nat|
            {
                &&& k <= MAX_ROUNDS
                &&& after.rng == climb(&self.ns, p, (init.0, init.1, self.rng), k).2
                &&& best_after == #[trigger] kept(k)
                &&& holds_clone_of::<P>(taken_after::<P>(None, kept, sols, k), sol_before, sol_after)
                &&& (k == MAX_ROUNDS && polls(kept, k, None) || polls(kept, k, Some(true)))
            }
    }

    fn is_ready(&self, p: &P) -> (b: bool) {
        self.initial_solution.is_some()
    }

    fn solve<SK: SolutionKeeper<P>, S: StopCondition<P::Obj>>(
        &mut self,
        p: P,
        sk: &mut SK,
        stop: S,
    ) {
        let ghost stop0 = stop;
        let mut stop = stop;
        let ghost init = self.initial_solution.unwrap();
        let ghost rng = self.rng;
        let ghost start = (init.0, init.1, self.rng);
        let ghost best_before = sk.spec_best_obj();
        let ghost sol_before = sk.spec_best_sol();
        let ghost kept = |i: nat| kept_by_climb(&self.ns, &p, init, rng, best_before, i);
        let ghost sols = |i: nat| climb(&self.ns, &p, (init.0, init.1, rng), i).0;
        let ghost polls = polls_of::<P::Obj, S>(stop0);
        let (mut solution, mut obj) = self.initial_solution.take().unwrap();
        let mut rounds: u64 = 0;
        loop
            invariant_except_break
                went_on(stop0, kept, rounds as nat, stop),
            invariant
                self.initial_solution is None,
                self.ns == old(self).ns,
                kept == |i: nat| kept_by_climb(&self.ns, &p, init, rng, best_before, i),
                sols == |i: nat| climb(&self.ns, &p, (init.0, init.1, rng), i).0,
                polls == polls_of::<P::Obj, S>(stop0),
                start == (init.0, init.1, rng),
                rounds <= MAX_ROUNDS,
                old(sk).inv() ==> sk.inv(),
                sk.spec_dual_bound() == old(sk).spec_dual_bound(),
                (solution, obj, self.rng) == climb(&self.ns, &p, start, rounds as nat),
                obj.key() <= init.1.key(),
                sk.spec_best_obj() == kept(rounds as nat),
                holds_clone_of::<P>(
                    taken_after::<P>(None, kept, sols, rounds as nat),
                    sol_before,
                    sk.spec_best_sol(),
                ),
            ensures
                (rounds == MAX_ROUNDS && polls(kept, rounds as nat, None)) || polls(
                    kept,
                    rounds as nat,
                    Some(true),
                ),
            decreases MAX_ROUNDS - rounds,
        {
            if rounds == MAX_ROUNDS {
                assert(polls(kept, rounds as nat, None));
                break ;
            }
            let primal = sk.best_obj();
            let ghost before = stop;
            let halt = stop.stop(primal, P::Obj::unbounded());
            if halt {
                proof {
                    assert(before.polled(kept(rounds as nat), P::Obj::spec_unbounded(), true, &stop));
                    assert(answered(before, kept(rounds as nat), true));
                    assert(polls(kept, rounds as nat, Some(true)));
                }
                break ;
            }
            proof {
                assert(climb(&self.ns, &p, start, (rounds + 1) as nat) == climb_step(
                    &self.ns,
                    &p,
                    climb(&self.ns, &p, start, rounds as nat),
                ));
                assert(before.polled(kept(rounds as nat), P::Obj::spec_unbounded(), false, &stop));
                lemma_went_on_extends(stop0, kept, rounds as nat, before, stop);
            }
            let ghost keeper = *sk;
            let next = Self::round(&self.ns, &p, solution, obj, &mut self.rng, sk);
            proof {
                assert(sols((rounds + 1) as nat) == next.0);
                assert(sk.spec_best_obj() == kept((rounds + 1) as nat));
                lemma_keeper_follows::<P, SK>(
                    None,
                    kept,
                    sols,
                    rounds as nat,
                    sol_before,
                    keeper,
                    *sk,
                );
            }
            solution = next.0;
            obj = next.1;
            rounds = rounds + 1;
        }
    }
}

/// Where a solution has no neighbour, steepest descent rests at it from the
/// first round on.
pub proof fn lemma_empty_neighbourhood_ends_descent<P: Problem, N: NeighbourhoodIndirect<P>>(
    ns: &N,
    p: &P,
    state: (P::Sol, P::Obj),
    k: nat,
)
    requires
        ns.spec_neighbourhood_id(p, &state.0).len() == 0,
    ensures
        steepest_index(neighbour_objs(ns, p, state.0), state.1) is None,
        descent(ns, p, state, k) == state,
{
    lemma_descent_rests(ns, p, state, 0, k);
}

} // verus!
