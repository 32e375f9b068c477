use vstd::prelude::*;
use crate::base::neighbour_space::NeighbourhoodIndirectRandom;
use crate::base::rng::Rng;
use crate::base::stop_condition::{
    answered, lemma_went_on_extends, polls_of, went_on, StopCondition,
};
use crate::base::{
    better, follows, holds_clone_of, lemma_keeper_follows, taken_after, Objective, Problem,
    SolutionKeeper, Solver,
};
use crate::solver::MAX_ROUNDS;

verus! {

/// The demon pays for a move of cost `delta` if its energy covers the cost.
pub open spec fn demon_accepts(energy: int, delta: int) -> bool {
    energy >= delta
}

/// Largest demon energy that `demon_move` takes: more than any run reaches
/// from an initial energy and objective values of 64 bits.
pub const MAX_ENERGY: i128 = 0x2_0000_0000_0000_0000;

/// Decides one move for a demon that holds `energy`, from a solution of value
/// `current` to one of value `proposed`. The move is accepted if and only if
/// the energy covers the rise in value; the result is then the energy left,
/// which grows when the value falls.
pub fn demon_move(energy: i128, current: i64, proposed: i64) -> (left: Option<i128>)
    requires
        0 <= energy <= MAX_ENERGY,
    ensures
        left == if demon_accepts(energy as int, proposed - current) {
            Some((energy - (proposed - current)) as i128)
        } else {
            None
        },
        left is Some ==> left.unwrap() >= 0,
{
    let delta: i128 = proposed as i128 - current as i128;
    if energy >= delta {
        Some(energy - delta)
    } else {
        None
    }
}

/// One round of microcanonical annealing. A state is the current solution,
/// its objective, the demon energy, the generator and the keeper's best
/// objective. A move is sampled and priced; if the demon accepts it, the move
/// is taken, the demon pays the rise in value and the keeper is told.
pub open spec fn anneal_step<P: Problem, N: NeighbourhoodIndirectRandom<P>, R: Rng>(
    ns: &N,
    p: &P,
    state: (P::Sol, P::Obj, int, R, P::Obj),
) -> (P::Sol, P::Obj, int, R, P::Obj) {
    let sampled = ns.spec_random_neighbour_id(p, &state.0, state.3);
    let moved = ns.spec_random_neighbour(p, state.0, sampled.0);
    let nobj = p.spec_obj(&moved);
    let delta = nobj.spec_value() - state.1.spec_value();
    if demon_accepts(state.2, delta) {
        (moved, nobj, state.2 - delta, sampled.1, better(state.4, nobj))
    } else {
        (state.0, state.1, state.2, sampled.1, state.4)
    }
}

/// The state of microcanonical annealing after `k` rounds from `state`.
pub open spec fn anneal<P: Problem, N: NeighbourhoodIndirectRandom<P>, R: Rng>(
    ns: &N,
    p: &P,
    state: (P::Sol, P::Obj, int, R, P::Obj),
    k: nat,
) -> (P::Sol, P::Obj, int, R, P::Obj)
    decreases k,
{
    if k == 0 {
        state
    } else {
        anneal_step(ns, p, anneal(ns, p, state, (k - 1) as nat))
    }
}

/// A demon without energy accepts exactly the moves that do not raise the
/// value.
pub proof fn lemma_exhausted_demon(delta: int)
    ensures
        demon_accepts(0, delta) <==> delta <= 0,
{
}

/// Conservation: a round leaves the sum of the current value and the demon
/// energy as it was, and the energy never falls below zero.
pub proof fn lemma_round_conserves<P: Problem, N: NeighbourhoodIndirectRandom<P>, R: Rng>(
    ns: &N,
    p: &P,
    state: (P::Sol, P::Obj, int, R, P::Obj),
)
    requires
        state.2 >= 0,
    ensures
        anneal_step(ns, p, state).1.spec_value() + anneal_step(ns, p, state).2
            == state.1.spec_value() + state.2,
        anneal_step(ns, p, state).2 >= 0,
{
}

/// Conservation over a run: after any number of rounds the sum of the current
/// value and the demon energy is what it was at the start.
pub proof fn lemma_run_conserves<P: Problem, N: NeighbourhoodIndirectRandom<P>, R: Rng>(
    ns: &N,
    p: &P,
    state: (P::Sol, P::Obj, int, R, P::Obj),
    k: nat,
)
    requires
        state.2 >= 0,
    ensures
        anneal(ns, p, state, k).1.spec_value() + anneal(ns, p, state, k).2 == state.1.spec_value()
            + state.2,
        anneal(ns, p, state, k).2 >= 0,
    decreases k,
{
    if k > 0 {
        lemma_run_conserves(ns, p, state, (k - 1) as nat);
        lemma_round_conserves(ns, p, anneal(ns, p, state, (k - 1) as nat));
    }
}

/// Engines that start alike run alike: from one solution, with demons of one
/// energy and generators in one state, microcanonical annealing is in one
/// state after any number of rounds.
pub proof fn lemma_equal_generators_equal_anneals<
    P: Problem,
    N: NeighbourhoodIndirectRandom<P>,
    R: Rng,
>(ns: &N, p: &P, init: (P::Sol, P::Obj), energy: int, best: P::Obj, first: R, second: R, k: nat)
    requires
        first == second,
    ensures
        anneal(ns, p, (init.0, init.1, energy, first, best), k) == anneal(
            ns,
            p,
            (init.0, init.1, energy, second, best),
            k,
        ),
{
}

/// A move and its inverse. If the demon accepts a move from `sol` and `back`
/// undoes it, then the demon accepts `back` as well, and after both the
/// solution, its objective and the demon energy are what they were.
pub proof fn lemma_inverse_move_restores<P: Problem, N: NeighbourhoodIndirectRandom<P>>(
    ns: &N,
    p: &P,
    sol: P::Sol,
    energy: int,
    nid: N::NeighbourId,
    back: N::NeighbourId,
)
    requires
        energy >= 0,
        ns.spec_random_neighbour(p, ns.spec_random_neighbour(p, sol, nid), back) == sol,
        demon_accepts(
            energy,
            p.spec_obj(&ns.spec_random_neighbour(p, sol, nid)).spec_value() - p.spec_obj(
                &sol,
            ).spec_value(),
        ),
    ensures
        ({
            let moved = ns.spec_random_neighbour(p, sol, nid);
            let returned = ns.spec_random_neighbour(p, moved, back);
            let delta = p.spec_obj(&moved).spec_value() - p.spec_obj(&sol).spec_value();
            let delta_back = p.spec_obj(&returned).spec_value() - p.spec_obj(&moved).spec_value();
            &&& demon_accepts(energy - delta, delta_back)
            &&& returned == sol
            &&& p.spec_obj(&returned) == p.spec_obj(&sol)
            &&& energy - delta - delta_back == energy
        }),
{
}

/// Annealing with a demon in place of a temperature: the demon holds a
/// reserve of energy that is never negative, pays for the moves that raise
/// the value and is paid by those that lower it.
#[derive(Clone)]
pub struct MicrocanonicalAnnealing<P: Problem, N: NeighbourhoodIndirectRandom<P>, R: Rng> {
    pub initial_solution: Option<(P::Sol, P::Obj)>,
    pub initial_demon_energy: i64,
    pub rng: R,
    pub ns: N,
}

impl<P: Problem, N: NeighbourhoodIndirectRandom<P>, R: Rng> MicrocanonicalAnnealing<P, N, R> {
    /// An engine that starts from `initial_solution`, a solution with its
    /// objective, with a demon that holds `initial_demon_energy`.
    pub fn new(ns: N, initial_solution: (P::Sol, P::Obj), initial_demon_energy: i64, rng: R) -> (r:
        Self)
        requires
            initial_demon_energy >= 0,
        ensures
            r.ns == ns,
            r.initial_solution == Some(initial_solution),
            r.initial_demon_energy == initial_demon_energy,
            r.rng == rng,
    {
        MicrocanonicalAnnealing {
            initial_solution: Some(initial_solution),
            initial_demon_energy,
            rng,
            ns,
        }
    }

    /// One round from `solution`, whose objective is `obj`, with a demon that
    /// holds `energy`: the keeper is told of the iteration; then a move is
    /// sampled and priced and, if the demon accepts it, taken, and the
    /// solution moved to is reported with its objective.
    /// Returns the solution, its objective and the demon energy after the
    /// round.
    pub fn round<SK: SolutionKeeper<P>>(
        ns: &N,
        p: &P,
        solution: P::Sol,
        obj: P::Obj,
        energy: i128,
        rng: &mut R,
        sk: &mut SK,
    ) -> (next: (P::Sol, P::Obj, i128))
        requires
            0 <= energy <= MAX_ENERGY,
        ensures
            (next.0, next.1, next.2 as int, *final(rng), final(sk).spec_best_obj()) == anneal_step(
                ns,
                p,
                (solution, obj, energy as int, *old(rng), old(sk).spec_best_obj()),
            ),
            next.2 >= 0,
            i64::MIN <= obj.spec_value() <= i64::MAX,
            i64::MIN <= next.1.spec_value() <= i64::MAX,
            follows(*old(sk), next.0, *final(sk)),
            old(sk).inv() ==> final(sk).inv(),
    {
        sk.iter();
        let nid = ns.random_neighbour_id(p, &solution, rng);
        let nobj = ns.neighbour_obj(p, &solution, &nid);
        let value = obj.value();
        let nvalue = nobj.value();
        match demon_move(energy, value, nvalue) {
            Some(left) => {
                let moved = ns.random_neighbour(p, solution, nid);
                sk.add_solution(&moved, nobj);
                (moved, nobj, left)
            },
            None => (solution, obj, energy),
        }
    }
}

impl<P: Problem, N: NeighbourhoodIndirectRandom<P>, R: Rng> Solver<P> for MicrocanonicalAnnealing<
    P,
    N,
    R,
> {
    /// A run consumes the initial solution, so the engine must still hold it,
    /// and the demon cannot start in debt.
    open spec fn ready(&self, p: &P) -> bool {
        &&& self.initial_solution is Some
        &&& self.initial_demon_energy >= 0
    }

    /// The run reports the initial solution and then performs some number of
    /// rounds, reporting each move taken. Before each round the stop
    /// condition is polled with the keeper's best objective, and all these
    /// polls answered "go on". The run ended because the rounds of a run were
    /// used up or the next poll answered "halt". The generator is left as the
    /// rounds leave it and the keeper ends with the best objective of the
    /// last state and with a clone of the solution that it took last. Its
    /// dual bound is left as it is.
    open spec fn outcome(
        &self,
        p: &P,
        polls: spec_fn(spec_fn(nat) -> P::Obj, nat, Option<bool>) -> bool,
        best_before: P::Obj,
        sol_before: Option<P::Sol>,
        dual_before: P::Obj,
        after: &Self,
        best_after: P::Obj,
        sol_after: Option<P::Sol>,
        dual_after: P::Obj,
    ) -> bool {
        let init = self.initial_solution.unwrap();
        let start = (
            init.0,
            init.1,
            self.initial_demon_energy as int,
            self.rng,
            better(best_before, init.1),
        );
        let kept = |i: nat| anneal(&self.ns, p, start, i).4;
        let sols = |i: nat| anneal(&self.ns, p, start, i).0;
        let first = if init.1.key() < best_before.key() {
            Some(init.0)
        } else {
            None
        };
        &&& after.initial_solution is None
        &&& after.initial_demon_energy == self.initial_demon_energy
        &&& after.ns == self.ns
        &&& dual_after == dual_before
        &&& exists|k: nat|
            {
                &&& k <= MAX_ROUNDS
                &&& after.rng == anneal(&self.ns, p, start, k).3
                &&& best_after == #[trigger] kept(k)
                &&& holds_clone_of::<P>(taken_after::<P>(first, kept, sols, k), sol_before, sol_after)
                &&& (k == MAX_ROUNDS && polls(kept, k, None) || polls(kept, k, Some(true)))
            }
    }

    fn is_ready(&self, p: &P) -> (b: bool) {
        self.initial_solution.is_some() && self.initial_demon_energy >= 0
    }

    fn solve<SK: SolutionKeeper<P>, S: StopCondition<P::Obj>>(
        &mut self,
        p: P,
        sk: &mut SK,
        stop: S,
    ) {
        let ghost stop0 = stop;
        let mut stop = stop;
        let ghost init = self.initial_solution.unwrap();
        let ghost best_before = sk.spec_best_obj();
        let ghost sol_before = sk.spec_best_sol();
        let ghost first = if init.1.key() < best_before.key() {
            Some(init.0)
        } else {
            None
        };
        let (mut current_solution, mut current_obj) = self.initial_solution.take().unwrap();
        sk.add_solution(&current_solution, current_obj);
        let mut demon_energy: i128 = self.initial_demon_energy as i128;
        let ghost start = (
            init.0,
            init.1,
            self.initial_demon_energy as int,
            self.rng,
            better(best_before, init.1),
        );
        let ghost kept = |i: nat| anneal(&self.ns, &p, start, i).4;
        let ghost sols = |i: nat| anneal(&self.ns, &p, start, i).0;
        let ghost polls = polls_of::<P::Obj, S>(stop0);
        let mut rounds: u64 = 0;
        loop
            invariant_except_break
                went_on(stop0, kept, rounds as nat, stop),
            invariant
                self.initial_solution is None,
                self.initial_demon_energy == old(self).initial_demon_energy,
                self.ns == old(self).ns,
                kept == |i: nat| anneal(&self.ns, &p, start, i).4,
                polls == polls_of::<P::Obj, S>(stop0),
                sols == |i: nat| anneal(&self.ns, &p, start, i).0,
                rounds <= MAX_ROUNDS,
                old(sk).inv() ==> sk.inv(),
                sk.spec_dual_bound() == old(sk).spec_dual_bound(),
                0 <= start.2 <= i64::MAX,
                0 <= demon_energy,
                rounds > 0 ==> i64::MIN <= start.1.spec_value() <= i64::MAX,
                rounds > 0 ==> i64::MIN <= current_obj.spec_value() <= i64::MAX,
                rounds == 0 ==> demon_energy == start.2,
                (current_solution, current_obj, demon_energy as int, self.rng, sk.spec_best_obj())
                    == anneal(&self.ns, &p, start, rounds as nat),
                sk.spec_best_obj() == kept(rounds as nat),
                holds_clone_of::<P>(
                    taken_after::<P>(first, kept, sols, rounds as nat),
                    sol_before,
                    sk.spec_best_sol(),
                ),
            ensures
                (rounds == MAX_ROUNDS && polls(kept, rounds as nat, None)) || polls(
                    kept,
                    rounds as nat,
                    Some(true),
                ),
            decreases MAX_ROUNDS - rounds,
        {
            if rounds == MAX_ROUNDS {
                assert(polls(kept, rounds as nat, None));
                break ;
            }
            let primal = sk.best_obj();
            let ghost before = stop;
            let halt = stop.stop(primal, P::Obj::unbounded());
            if halt {
                proof {
                    assert(before.polled(kept(rounds as nat), P::Obj::spec_unbounded(), true, &stop));
                    assert(answered(before, kept(rounds as nat), true));
                    assert(polls(kept, rounds as nat, Some(true)));
                }
                break ;
            }
            proof {
                lemma_run_conserves(&self.ns, &p, start, rounds as nat);
                lemma_run_conserves(&self.ns, &p, start, (rounds + 1) as nat);
                assert(anneal(&self.ns, &p, start, (rounds + 1) as nat) == anneal_step(
                    &self.ns,
                    &p,
                    anneal(&self.ns, &p, start, rounds as nat),
                ));
                assert(before.polled(kept(rounds as nat), P::Obj::spec_unbounded(), false, &stop));
                lemma_went_on_extends(stop0, kept, rounds as nat, before, stop);
            }
            let ghost keeper = *sk;
            let next = Self::round(
                &self.ns,
                &p,
                current_solution,
                current_obj,
                demon_energy,
                &mut self.rng,
                sk,
            );
            proof {
                assert(sols((rounds + 1) as nat) == next.0);
                assert(sk.spec_best_obj() == kept((rounds + 1) as nat));
                lemma_keeper_follows::<P, SK>(
                    first,
                    kept,
                    sols,
                    rounds as nat,
                    sol_before,
                    keeper,
                    *sk,
                );
            }
            current_solution = next.0;
            current_obj = next.1;
            demon_energy = next.2;
            rounds = rounds + 1;
        }
    }
}

} // verus!
