use vstd::prelude::*;
use crate::base::neighbour_space::NeighbourhoodIndirectRandom;
use crate::base::rng::Rng;
use crate::base::stop_condition::{
    answered, lemma_went_on_extends, polls_of, went_on, StopCondition,
};
use crate::base::{
    better, follows, holds_clone_of, lemma_keeper_follows, taken_after, Objective, Problem,
    SolutionKeeper, Solver,
};
use crate::solver::MAX_ROUNDS;

verus! {

/// A cooling schedule with its acceptance rule.
///
/// The schedule hands out a temperature per round and moves on. A temperature
/// that is not positive ends the run. At a positive temperature the rule
/// decides, from a word drawn uniformly, whether a move that does not lower
/// the value is taken.
///
/// The spec functions are what the contracts of the methods speak of; an
/// implementation gives them their bodies.
pub trait CoolingSchedule: Sized {
    type Temperature: Copy;

    /// The temperature for a round that starts at value `obj`, and the
    /// schedule after that round.
    open spec fn spec_temperature(&self, obj: i64) -> (Self::Temperature, Self) {
        arbitrary()
    }

    /// Whether a temperature lies above zero.
    open spec fn spec_is_positive(t: Self::Temperature) -> bool {
        arbitrary()
    }

    /// Whether a rise of `delta` in value is accepted at temperature `t` with
    /// the drawn word `draw`.
    open spec fn spec_accepts(t: Self::Temperature, delta: int, draw: u64) -> bool {
        arbitrary()
    }

    fn temperature(&mut self, obj: i64) -> (t: Self::Temperature)
        ensures
            (t, *final(self)) == old(self).spec_temperature(obj),
    ;

    fn is_positive(t: Self::Temperature) -> (b: bool)
        ensures
            b == Self::spec_is_positive(t),
    ;

    fn accepts(t: Self::Temperature, delta: i128, draw: u64) -> (b: bool)
        requires
            Self::spec_is_positive(t),
            delta >= 0,
        ensures
            b == Self::spec_accepts(t, delta as int, draw),
    ;
}

/// One round of simulated annealing. A state is the current solution, its
/// objective, the generator, the schedule, the keeper's best objective and
/// whether the run is frozen.
///
/// A frozen run stays as it is. Otherwise the schedule gives the temperature
/// of the round; if that is not positive the run freezes before anything is
/// sampled. Otherwise a move is sampled and priced. A move that lowers the
/// value is taken; for any other a word is drawn and the acceptance rule
/// decides. The keeper is told of each move taken.
pub open spec fn sa_step<
    P: Problem,
    N: NeighbourhoodIndirectRandom<P>,
    R: Rng,
    CS: CoolingSchedule,
>(ns: &N, p: &P, state: (P::Sol, P::Obj, R, CS, P::Obj, bool)) -> (
    P::Sol,
    P::Obj,
    R,
    CS,
    P::Obj,
    bool,
) {
    if state.5 {
        state
    } else {
        let cooled = state.3.spec_temperature(state.1.spec_value() as i64);
        if !CS::spec_is_positive(cooled.0) {
            (state.0, state.1, state.2, cooled.1, state.4, true)
        } else {
            let sampled = ns.spec_random_neighbour_id(p, &state.0, state.2);
            let moved = ns.spec_random_neighbour(p, state.0, sampled.0);
            let nobj = p.spec_obj(&moved);
            let delta = nobj.spec_value() - state.1.spec_value();
            if delta < 0 {
                (moved, nobj, sampled.1, cooled.1, better(state.4, nobj), false)
            } else if CS::spec_accepts(cooled.0, delta, sampled.1.peek()) {
                (moved, nobj, sampled.1.advance(), cooled.1, better(state.4, nobj), false)
            } else {
                (state.0, state.1, sampled.1.advance(), cooled.1, state.4, false)
            }
        }
    }
}

/// The state of simulated annealing after `k` rounds from `state`.
pub open spec fn sa_run<
    P: Problem,
    N: NeighbourhoodIndirectRandom<P>,
    R: Rng,
    CS: CoolingSchedule,
>(ns: &N, p: &P, state: (P::Sol, P::Obj, R, CS, P::Obj, bool), k: nat) -> (
    P::Sol,
    P::Obj,
    R,
    CS,
    P::Obj,
    bool,
)
    decreases k,
{
    if k == 0 {
        state
    } else {
        sa_step(ns, p, sa_run(ns, p, state, (k - 1) as nat))
    }
}

/// Engines that start alike run alike: from one solution, with schedules and
/// generators in one state, simulated annealing is in one state after any
/// number of rounds.
pub proof fn lemma_equal_generators_equal_runs<
    P: Problem,
    N: NeighbourhoodIndirectRandom<P>,
    R: Rng,
    CS: CoolingSchedule,
>(
    ns: &N,
    p: &P,
    init: (P::Sol, P::Obj),
    best: P::Obj,
    first: (R, CS),
    second: (R, CS),
    k: nat,
)
    requires
        first == second,
    ensures
        sa_run(ns, p, (init.0, init.1, first.0, first.1, best, false), k) == sa_run(
            ns,
            p,
            (init.0, init.1, second.0, second.1, best, false),
            k,
        ),
{
}

/// A temperature that is not positive ends the run at once, whatever move
/// would have come: the round freezes the run and leaves the solution, its
/// objective, the generator and the keeper's best objective as they were, and
/// so does every round after it.
pub proof fn lemma_cold_round_freezes<
    P: Problem,
    N: NeighbourhoodIndirectRandom<P>,
    R: Rng,
    CS: CoolingSchedule,
>(ns: &N, p: &P, state: (P::Sol, P::Obj, R, CS, P::Obj, bool), k: nat)
    requires
        !state.5,
        !CS::spec_is_positive(state.3.spec_temperature(state.1.spec_value() as i64).0),
        k >= 1,
    ensures
        sa_run(ns, p, state, k) == (
            state.0,
            state.1,
            state.2,
            state.3.spec_temperature(state.1.spec_value() as i64).1,
            state.4,
            true,
        ),
    decreases k,
{
    if k > 1 {
        lemma_cold_round_freezes(ns, p, state, (k - 1) as nat);
    } else {
        assert(sa_run(ns, p, state, 0) == state);
    }
}

/// Annealing under a cooling schedule: moves that lower the value are taken,
/// others are taken as the schedule's acceptance rule decides, and the run
/// ends when the temperature is no longer positive.
#[derive(Clone)]
pub struct SimulatedAnnealing<
    P: Problem,
    N: NeighbourhoodIndirectRandom<P>,
    R: Rng,
    CS: CoolingSchedule + Clone,
> {
    pub initial_solution: Option<(P::Sol, P::Obj)>,
    pub rng: R,
    pub cooling_schedule: CS,
    pub ns: N,
}

impl<
    P: Problem,
    N: NeighbourhoodIndirectRandom<P>,
    R: Rng,
    CS: CoolingSchedule + Clone,
> SimulatedAnnealing<P, N, R, CS> {
    /// An engine that starts from `initial_solution`, a solution with its
    /// objective.
    pub fn new(ns: N, initial_solution: (P::Sol, P::Obj), rng: R, cooling_schedule: CS) -> (r:
        Self)
        ensures
            r.ns == ns,
            r.initial_solution == Some(initial_solution),
            r.rng == rng,
            r.cooling_schedule == cooling_schedule,
    {
        SimulatedAnnealing { initial_solution: Some(initial_solution), rng, cooling_schedule, ns }
    }

    /// One round from `solution`, whose objective is `obj`: the keeper is
    /// told of the iteration and the schedule gives the temperature. If that
    /// is not positive the run freezes. Otherwise a move is sampled and
    /// priced, and taken and reported if it lowers the value or the
    /// acceptance rule takes it. Returns the solution and its objective after
    /// the round, and whether the run froze.
    pub fn round<SK: SolutionKeeper<P>>(
        ns: &N,
        p: &P,
        solution: P::Sol,
        obj: P::Obj,
        rng: &mut R,
        cooling_schedule: &mut CS,
        sk: &mut SK,
    ) -> (next: (P::Sol, P::Obj, bool))
        ensures
            (
                next.0,
                next.1,
                *final(rng),
                *final(cooling_schedule),
                final(sk).spec_best_obj(),
                next.2,
            ) == sa_step(
                ns,
                p,
                (solution, obj, *old(rng), *old(cooling_schedule), old(sk).spec_best_obj(), false),
            ),
            follows(*old(sk), next.0, *final(sk)),
            old(sk).inv() ==> final(sk).inv(),
    {
        sk.iter();
        let value = obj.value();
        let temp = cooling_schedule.temperature(value);
        if !CS::is_positive(temp) {
            (solution, obj, true)
        } else {
            let nid = ns.random_neighbour_id(p, &solution, rng);
            let nobj = ns.neighbour_obj(p, &solution, &nid);
            let delta: i128 = nobj.value() as i128 - value as i128;
            let taken = if delta < 0 {
                true
            } else {
                let draw = rng.next_u64();
                CS::accepts(temp, delta, draw)
            };
            if taken {
                let moved = ns.random_neighbour(p, solution, nid);
                sk.add_solution(&moved, nobj);
                (moved, nobj, false)
            } else {
                (solution, obj, false)
            }
        }
    }
}

impl<
    P: Problem,
    N: NeighbourhoodIndirectRandom<P>,
    R: Rng,
    CS: CoolingSchedule + Clone,
> Solver<P> for SimulatedAnnealing<P, N, R, CS> {
    /// A run consumes the initial solution, so the engine must still hold it.
    open spec fn ready(&self, p: &P) -> bool {
        self.initial_solution is Some
    }

    /// The run performs some number of rounds and reports each move taken.
    /// Before each round the stop condition is polled with the keeper's best
    /// objective, and all these polls answered "go on". The run ended
    /// because the rounds of a run were used up, or the last round froze the
    /// run, or the next poll answered "halt". The generator and the schedule
    /// are left as the rounds leave them and the keeper ends with the best
    /// objective of the last state and with a clone of the solution that it
    /// took last. Its dual bound is left as it is.
    open spec fn outcome(
        &self,
        p: &P,
        polls: spec_fn(spec_fn(nat) -> P::Obj, nat, Option<bool>) -> bool,
        best_before: P::Obj,
        sol_before: Option<P::Sol>,
        dual_before: P::Obj,
        after: &Self,
        best_after: P::Obj,
        sol_after: Option<P::Sol>,
        dual_after: P::Obj,
    ) -> bool {
        let init = self.initial_solution.unwrap();
        let start = (init.0, init.1, self.rng, self.cooling_schedule, best_before, false);
        let kept = |i: nat| sa_run(&self.ns, p, start, i).4;
        let sols = |i: nat| sa_run(&self.ns, p, start, i).0;
        &&& after.initial_solution is None
        &&& after.ns == self.ns
        &&& dual_after == dual_before
        &&& exists|k: nat|
            {
                let last = #[trigger] sa_run(&self.ns, p, start, k);
                &&& k <= MAX_ROUNDS
                &&& after.rng == last.2
                &&& after.cooling_schedule == last.3
                &&& best_after == last.4
                &&& holds_clone_of::<P>(taken_after::<P>(None, kept, sols, k), sol_before, sol_after)
                &&& ((k == MAX_ROUNDS || last.5) && polls(kept, k, None) || polls(
                    kept,
                    k,
                    Some(true),
                ))
            }
    }

    fn is_ready(&self, p: &P) -> (b: bool) {
        self.initial_solution.is_some()
    }

    fn solve<SK: SolutionKeeper<P>, S: StopCondition<P::Obj>>(
        &mut self,
        p: P,
        sk: &mut SK,
        stop: S,
    ) {
        let ghost stop0 = stop;
        let mut stop = stop;
        let ghost sol_before = sk.spec_best_sol();
        let ghost init = self.initial_solution.unwrap();
        let ghost start = (
            init.0,
            init.1,
            self.rng,
            self.cooling_schedule,
            sk.spec_best_obj(),
            false,
        );
        let ghost kept = |i: nat| sa_run(&self.ns, &p, start, i).4;
        let ghost sols = |i: nat| sa_run(&self.ns, &p, start, i).0;
        let ghost polls = polls_of::<P::Obj, S>(stop0);
        let (mut current_solution, mut current_obj) = self.initial_solution.take().unwrap();
        let mut frozen = false;
        let mut rounds: u64 = 0;
        loop
            invariant_except_break
                went_on(stop0, kept, rounds as nat, stop),
            invariant
                self.initial_solution is None,
                self.ns == old(self).ns,
                kept == |i: nat| sa_run(&self.ns, &p, start, i).4,
                polls == polls_of::<P::Obj, S>(stop0),
                sols == |i: nat| sa_run(&self.ns, &p, start, i).0,
                rounds <= MAX_ROUNDS,
                old(sk).inv() ==> sk.inv(),
                sk.spec_dual_bound() == old(sk).spec_dual_bound(),
                (
                    current_solution,
                    current_obj,
                    self.rng,
                    self.cooling_schedule,
                    sk.spec_best_obj(),
                    frozen,
                ) == sa_run(&self.ns, &p, start, rounds as nat),
                sk.spec_best_obj() == kept(rounds as nat),
                holds_clone_of::<P>(
                    taken_after::<P>(None, kept, sols, rounds as nat),
                    sol_before,
                    sk.spec_best_sol(),
                ),
            ensures
                ((rounds == MAX_ROUNDS || frozen) && polls(kept, rounds as nat, None)) || polls(
                    kept,
                    rounds as nat,
                    Some(true),
                ),
            decreases MAX_ROUNDS - rounds,
        {
            if frozen || rounds == MAX_ROUNDS {
                assert(polls(kept, rounds as nat, None));
                break ;
            }
            let primal = sk.best_obj();
            let ghost before = stop;
            let halt = stop.stop(primal, P::Obj::unbounded());
            if halt {
                proof {
                    assert(before.polled(kept(rounds as nat), P::Obj::spec_unbounded(), true, &stop));
                    assert(answered(before, kept(rounds as nat), true));
                    assert(polls(kept, rounds as nat, Some(true)));
                }
                break ;
            }
            proof {
                assert(sa_run(&self.ns, &p, start, (rounds + 1) as nat) == sa_step(
                    &self.ns,
                    &p,
                    sa_run(&self.ns, &p, start, rounds as nat),
                ));
                assert(before.polled(kept(rounds as nat), P::Obj::spec_unbounded(), false, &stop));
                lemma_went_on_extends(stop0, kept, rounds as nat, before, stop);
            }
            let ghost keeper = *sk;
            let next = Self::round(
                &self.ns,
                &p,
                current_solution,
                current_obj,
                &mut self.rng,
                &mut self.cooling_schedule,
                sk,
            );
            proof {
                assert(sols((rounds + 1) as nat) == next.0);
                assert(sk.spec_best_obj() == kept((rounds + 1) as nat));
                lemma_keeper_follows::<P, SK>(
                    None,
                    kept,
                    sols,
                    rounds as nat,
                    sol_before,
                    keeper,
                    *sk,
                );
            }
            current_solution = next.0;
            current_obj = next.1;
            frozen = next.2;
            rounds = rounds + 1;
        }
    }
}

} // verus!
