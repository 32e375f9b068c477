use vstd::prelude::*;
use crate::base::stop_condition::{polls_of, Span, StopCondition, Timer};
use crate::base::rng::Splitmix64;
use crate::base::{
    Objective, Problem, ProblemGenerator, Reduction, SimpleSolutionKeeper, SolutionKeeper, Solver,
};
use crate::testing::solver_stats::{is_monotone, log_primal, SolverEvent, SolverStats};

pub mod solver_stats;

verus! {

/// One point of the record of a run: the bounds in force, as values of the
/// problem that was posed, at a time since the start and an iteration.
#[derive(Debug, Clone, Copy)]
pub struct DataPoint {
    pub time: Span,
    pub it: u64,
    pub pb: i64,
    pub db: i64,
}

/// The primal bound of a run that recorded nothing.
pub const UNFEAS: i64 = i64::MAX;

/// The dual bound of a run that recorded nothing.
pub const UNBOUNDED: i64 = i64::MIN;

/// The record of one run.
#[derive(Debug, Clone)]
pub struct SingleTestData {
    pub data_points: Vec<DataPoint>,
}

/// The data point that stands for an event of a run on the problem `reduced`:
/// its bounds lifted to the problem that was posed and projected to integers.
pub open spec fn lifted_point<OP: Problem, T: Timer, P: Reduction<OP>>(
    reduced: &P,
    event: SolverEvent<T, P>,
    point: DataPoint,
) -> bool {
    &&& point.it == event.it
    &&& point.pb == reduced.spec_lift_obj_to(event.primal_bound).spec_value()
    &&& point.db == reduced.spec_lift_obj_to(event.dual_bound).spec_value()
}

impl SingleTestData {
    /// The last primal bound recorded; `UNFEAS` if nothing was recorded.
    pub fn lb(&self) -> (v: i64)
        ensures
            v == if self.data_points@.len() == 0 {
                UNFEAS
            } else {
                self.data_points@.last().pb
            },
    {
        let n = self.data_points.len();
        if n == 0 {
            UNFEAS
        } else {
            self.data_points[n - 1].pb
        }
    }

    /// The last dual bound recorded; `UNBOUNDED` if nothing was recorded.
    pub fn ub(&self) -> (v: i64)
        ensures
            v == if self.data_points@.len() == 0 {
                UNBOUNDED
            } else {
                self.data_points@.last().db
            },
    {
        let n = self.data_points.len();
        if n == 0 {
            UNBOUNDED
        } else {
            self.data_points[n - 1].db
        }
    }

    /// The iteration of the last point; zero if nothing was recorded.
    pub fn nits(&self) -> (v: u64)
        ensures
            v == if self.data_points@.len() == 0 {
                0
            } else {
                self.data_points@.last().it
            },
    {
        let n = self.data_points.len();
        if n == 0 {
            0
        } else {
            self.data_points[n - 1].it
        }
    }

    /// The time of the last point; no time if nothing was recorded.
    pub fn time(&self) -> (d: Span)
        ensures
            d == if self.data_points@.len() == 0 {
                zero_span()
            } else {
                self.data_points@.last().time
            },
    {
        let n = self.data_points.len();
        if n == 0 {
            Span::new(0, 0)
        } else {
            self.data_points[n - 1].time
        }
    }

    /// The record of a run from the log of its stats keeper: one point per
    /// event, with the bounds lifted to the problem that was posed and the
    /// time taken since the start of the run.
    pub fn from<OP: Problem, T: Timer, P: Reduction<OP>, SK: SolutionKeeper<P>>(
        stats: &SolverStats<T, P, SK>,
    ) -> (r: Self)
        ensures
            r.data_points@.len() == stats.events@.len(),
            forall|i: int|
                0 <= i < stats.events@.len() ==> lifted_point(
                    &stats.problem,
                    stats.events@[i],
                    #[trigger] r.data_points@[i],
                ),
            forall|i: int|
                0 <= i < stats.events@.len() ==> T::spans(
                    stats.events@[i].time,
                    stats.start_time,
                    (#[trigger] r.data_points@[i]).time,
                ),
    {
        Self::from_log(&stats.events, stats.start_time, &stats.problem)
    }

    /// The record that a log makes: one point per event, with the bounds
    /// lifted through `reduced` and the time taken since `start_time`.
    pub fn from_log<OP: Problem, T: Timer, P: Reduction<OP>>(
        events: &Vec<SolverEvent<T, P>>,
        start_time: T::Instant,
        reduced: &P,
    ) -> (r: Self)
        ensures
            r.data_points@.len() == events@.len(),
            forall|i: int|
                0 <= i < events@.len() ==> lifted_point(
                    reduced,
                    events@[i],
                    #[trigger] r.data_points@[i],
                ),
            forall|i: int|
                0 <= i < events@.len() ==> T::spans(
                    events@[i].time,
                    start_time,
                    (#[trigger] r.data_points@[i]).time,
                ),
    {
        let mut data_points: Vec<DataPoint> = Vec::new();
        let mut i: usize = 0;
        while i < events.len()
            invariant
                i <= events@.len(),
                data_points@.len() == i,
                forall|j: int|
                    0 <= j < i ==> lifted_point(reduced, events@[j], #[trigger] data_points@[j]),
                forall|j: int|
                    0 <= j < i ==> T::spans(
                        events@[j].time,
                        start_time,
                        (#[trigger] data_points@[j]).time,
                    ),
            decreases events@.len() - i,
        {
            let event = &events[i];
            let point = DataPoint {
                time: T::since(event.time, start_time),
                it: event.it,
                pb: reduced.lift_obj_to(event.primal_bound).value(),
                db: reduced.lift_obj_to(event.dual_bound).value(),
            };
            data_points.push(point);
            i += 1;
        }
        SingleTestData { data_points }
    }
}

/// The span of no time.
pub closed spec fn zero_span() -> Span {
    Span::spec_new(0, 0)
}

/// The points are the record of the log: one point per event, with the
/// bounds of the event lifted through `reduced` and the iteration of the
/// event.
pub open spec fn is_record_of<OP: Problem, T: Timer, P: Reduction<OP>>(
    reduced: &P,
    log: Seq<SolverEvent<T, P>>,
    points: Seq<DataPoint>,
) -> bool {
    &&& points.len() == log.len()
    &&& forall|i: int| 0 <= i < log.len() ==> lifted_point(reduced, log[i], #[trigger] points[i])
}

/// Whether `r` is the record of one run of `solver` on the reduction of
/// `problem` under `stop`, begun with a keeper that holds nothing: the
/// record of a monotone log whose primal bound is the best objective that
/// the run leaves the keeper with.
pub open spec fn is_single_run<
    OP: Problem,
    P: Reduction<OP>,
    S: Solver<P>,
    SC: StopCondition<P::Obj>,
    T: Timer,
>(solver: S, problem: &OP, stop_condition: SC, r: SingleTestData) -> bool {
    exists|
        after: S,
        best: P::Obj,
        sol: Option<P::Sol>,
        dual: P::Obj,
        log: Seq<SolverEvent<T, P>>,
    |
        #![trigger
            solver.outcome(
                &P::spec_reduce_from(problem),
                polls_of(stop_condition),
                P::Obj::spec_unfeas(),
                None,
                P::Obj::spec_unbounded(),
                &after,
                best,
                sol,
                dual,
            ),
            is_record_of(&P::spec_reduce_from(problem), log, r.data_points@)
        ]
        {
            &&& solver.outcome(
                &P::spec_reduce_from(problem),
                polls_of(stop_condition),
                P::Obj::spec_unfeas(),
                None,
                P::Obj::spec_unbounded(),
                &after,
                best,
                sol,
                dual,
            )
            &&& is_record_of(&P::spec_reduce_from(problem), log, r.data_points@)
            &&& is_monotone(log)
            &&& log_primal(log) == best
        }
}

/// Whether `run` is the record of a run of a clone of `solver`, under a
/// clone of `stop`, on the instance that `generator` draws from the
/// generator of random words seeded with `seed`.
pub open spec fn is_run_of_seed<
    OP: Problem,
    P: Reduction<OP>,
    S: Solver<P>,
    SC: StopCondition<P::Obj>,
    T: Timer,
    G: ProblemGenerator<OP>,
>(solver: &S, stop: &SC, generator: &G, seed: u64, run: SingleTestData) -> bool {
    exists|engine: S, halt: SC|
        #![trigger is_single_run::<OP, P, S, SC, T>(
            engine,
            &generator.spec_generate(Splitmix64(seed)).0,
            halt,
            run,
        )]
        {
            &&& cloned(*solver, engine)
            &&& cloned(*stop, halt)
            &&& is_single_run::<OP, P, S, SC, T>(
                engine,
                &generator.spec_generate(Splitmix64(seed)).0,
                halt,
                run,
            )
        }
}

/// Runs a solver once on the reduction of `problem`, under a stats keeper
/// around a simple keeper that holds nothing yet, and returns the record of
/// the run: the record of the log that the stats keeper has after the run.
/// That log is monotone, and the primal bound in force after it is the best
/// objective that the run leaves the keeper with, or the infeasible sentinel
/// if the log is empty.
pub fn test_single<
    OP: Problem,
    P: Reduction<OP>,
    S: Solver<P>,
    SC: StopCondition<P::Obj>,
    T: Timer,
>(solver: S, problem: &OP, stop_condition: SC) -> (r: SingleTestData)
    requires
        solver.ready(&P::spec_reduce_from(problem)),
    ensures
        is_single_run::<OP, P, S, SC, T>(solver, problem, stop_condition, r),
{
    let mut solver = solver;
    let reduced = P::reduce_from(problem);
    let mut stats: SolverStats<T, P, SimpleSolutionKeeper<P>> = SolverStats::new(
        SimpleSolutionKeeper::default(),
        reduced.clone(),
    );
    let ghost before = solver;
    solver.solve(P::reduce_from(problem), &mut stats, stop_condition);
    let r = SingleTestData::from_log(&stats.events, stats.start_time, &reduced);
    proof {
        assert(stats.inv());
        assert(before.outcome(
            &P::spec_reduce_from(problem),
            polls_of(stop_condition),
            P::Obj::spec_unfeas(),
            None,
            P::Obj::spec_unbounded(),
            &solver,
            stats.spec_best_obj(),
            stats.spec_best_sol(),
            stats.spec_dual_bound(),
        ));
        assert(is_record_of(&P::spec_reduce_from(problem), stats.events@, r.data_points@));
    }
    r
}

/// Runs a solver on one generated instance per seed: for each seed a
/// generator of random words is seeded with it, an instance is drawn, and a
/// clone of the solver runs once on it under a clone of the stop condition.
/// Returns the records of the runs, in the order of the seeds: the record at
/// each place is that of such a run for the seed at that place.
pub fn run_seeds<
    OP: Problem,
    P: Reduction<OP>,
    S: Solver<P>,
    SC: StopCondition<P::Obj>,
    T: Timer,
    G: ProblemGenerator<OP>,
>(solver: &S, stop: &SC, generator: &G, seeds: &Vec<u64>) -> (runs: Vec<SingleTestData>)
    requires
        forall|c: S, p: OP| #[trigger] cloned(*solver, c) ==> #[trigger] c.ready(&P::spec_reduce_from(&p)),
    ensures
        runs@.len() == seeds@.len(),
        forall|i: int|
            0 <= i < seeds@.len() ==> is_run_of_seed::<OP, P, S, SC, T, G>(
                solver,
                stop,
                generator,
                seeds@[i],
                #[trigger] runs@[i],
            ),
{
    let mut runs: Vec<SingleTestData> = Vec::new();
    let mut i: usize = 0;
    while i < seeds.len()
        invariant
            i <= seeds@.len(),
            runs@.len() == i,
            forall|c: S, p: OP| #[trigger]
                cloned(*solver, c) ==> #[trigger] c.ready(&P::spec_reduce_from(&p)),
            forall|j: int|
                0 <= j < i ==> is_run_of_seed::<OP, P, S, SC, T, G>(
                    solver,
                    stop,
                    generator,
                    seeds@[j],
                    #[trigger] runs@[j],
                ),
        decreases seeds@.len() - i,
    {
        let mut rng = Splitmix64::from_u64(seeds[i]);
        let prob = generator.generate(&mut rng);
        let engine = solver.clone();
        let halt = stop.clone();
        assert(cloned(*solver, engine));
        assert(cloned(*stop, halt));
        let run = test_single::<OP, P, S, SC, T>(engine, &prob, halt);
        proof {
            let drawn = generator.spec_generate(Splitmix64(seeds@[i as int])).0;
            assert(prob == drawn);
            assert(is_single_run::<OP, P, S, SC, T>(engine, &drawn, halt, run));
            assert(is_run_of_seed::<OP, P, S, SC, T, G>(solver, stop, generator, seeds@[i as int], run));
        }
        runs.push(run);
        i += 1;
    }
    runs
}

} // verus!
