use vstd::prelude::*;
use crate::base::stop_condition::Timer;
use crate::base::{better, Objective, Problem, SolutionKeeper};

verus! {

/// One entry of the log of a run: the bounds in force at a time, a reading
/// of the keeper's clock, and an iteration.
pub struct SolverEvent<T: Timer, P: Problem> {
    pub time: T::Instant,
    pub it: u64,
    pub primal_bound: P::Obj,
    pub dual_bound: P::Obj,
}

/// The larger of a bound in force and a bound offered; the one offered where
/// neither is larger.
pub open spec fn raised<O: Objective>(in_force: O, offered: O) -> O {
    if offered.key() < in_force.key() {
        in_force
    } else {
        offered
    }
}

/// The primal bound in force after a log: that of its last entry, or the
/// infeasible sentinel for an empty log.
pub open spec fn log_primal<T: Timer, P: Problem>(log: Seq<SolverEvent<T, P>>) -> P::Obj {
    if log.len() == 0 {
        P::Obj::spec_unfeas()
    } else {
        log.last().primal_bound
    }
}

/// The dual bound in force after a log: that of its last entry, or the
/// unbounded sentinel for an empty log.
pub open spec fn log_dual<T: Timer, P: Problem>(log: Seq<SolverEvent<T, P>>) -> P::Obj {
    if log.len() == 0 {
        P::Obj::spec_unbounded()
    } else {
        log.last().dual_bound
    }
}

/// Along the log the primal bounds never rise, the dual bounds never fall and
/// the iterations never go back.
pub open spec fn is_monotone<T: Timer, P: Problem>(log: Seq<SolverEvent<T, P>>) -> bool {
    forall|i: int, j: int|
        0 <= i <= j < log.len() ==> {
            &&& (#[trigger] log[j]).primal_bound.key() <= (#[trigger] log[i]).primal_bound.key()
            &&& log[i].dual_bound.key() <= log[j].dual_bound.key()
            &&& log[i].it <= log[j].it
        }
}

/// A keeper that passes every call on to the keeper it wraps and logs the
/// bounds in force after each solution and each dual bound, stamped with the
/// time and the iteration.
pub struct SolverStats<T: Timer, P: Problem, SK: SolutionKeeper<P>> {
    pub its: u64,
    pub events: Vec<SolverEvent<T, P>>,
    pub start_time: T::Instant,
    pub last_time: T::Instant,
    pub timer: T,
    pub underlying: SK,
    pub problem: P,
}

impl<T: Timer, P: Problem, SK: SolutionKeeper<P>> SolverStats<T, P, SK> {
    /// The log is monotone and no entry lies after the current iteration.
    pub open spec fn wf(&self) -> bool {
        &&& is_monotone(self.events@)
        &&& forall|i: int| 0 <= i < self.events@.len() ==> (#[trigger] self.events@[i]).it <= self.its
    }

    /// The log and the keeper wrapped are in step: the primal bound in force
    /// is the best objective that the keeper holds.
    pub open spec fn in_step(&self) -> bool {
        log_primal(self.events@) == self.underlying.spec_best_obj()
    }

    /// The primal bound in force.
    pub fn current_primal(&self) -> (o: P::Obj)
        ensures
            o == log_primal(self.events@),
    {
        if self.events.len() == 0 {
            P::Obj::unfeas()
        } else {
            self.events[self.events.len() - 1].primal_bound
        }
    }

    /// The dual bound in force.
    pub fn current_dual(&self) -> (o: P::Obj)
        ensures
            o == log_dual(self.events@),
    {
        if self.events.len() == 0 {
            P::Obj::unbounded()
        } else {
            self.events[self.events.len() - 1].dual_bound
        }
    }

    /// A stats keeper around `underlying` with an empty log, at iteration
    /// zero.
    pub fn new(underlying: SK, problem: P) -> (r: Self)
        ensures
            r.its == 0,
            r.events@.len() == 0,
            r.underlying == underlying,
            r.problem == problem,
            r.timer.shows(r.start_time),
            r.timer.shows(r.last_time),
            r.wf(),
            underlying.spec_best_obj() == P::Obj::spec_unfeas() ==> r.in_step(),
    {
        let timer = T::default();
        let start_time = timer.time();
        let last_time = timer.time();
        SolverStats {
            its: 0,
            events: Vec::new(),
            start_time,
            last_time,
            timer,
            underlying,
            problem,
        }
    }

    /// Closes the log with an entry that repeats the bounds in force at the
    /// current iteration.
    pub fn finish(&mut self)
        ensures
            final(self).events@.len() == old(self).events@.len() + 1,
            final(self).events@.drop_last() == old(self).events@,
            final(self).events@.last().it == old(self).its,
            final(self).events@.last().primal_bound == log_primal(old(self).events@),
            final(self).events@.last().dual_bound == log_dual(old(self).events@),
            final(self).its == old(self).its,
            final(self).timer == old(self).timer,
            final(self).start_time == old(self).start_time,
            old(self).timer.shows(final(self).events@.last().time),
            final(self).underlying == old(self).underlying,
            old(self).wf() ==> final(self).wf(),
            old(self).in_step() ==> final(self).in_step(),
    {
        let event = SolverEvent {
            time: self.timer.time(),
            it: self.its,
            primal_bound: self.current_primal(),
            dual_bound: self.current_dual(),
        };
        self.events.push(event);
    }
}

impl<T: Timer, P: Problem, SK: SolutionKeeper<P>> SolverStats<T, P, SK> {
    /// Logs the primal bound that a solution of objective `obj` leaves in
    /// force, at the current iteration and a reading of the clock.
    fn log_solution(&mut self, obj: P::Obj)
        ensures
            final(self).events@.len() == old(self).events@.len() + 1,
            final(self).events@.drop_last() == old(self).events@,
            final(self).events@.last().it == old(self).its,
            final(self).events@.last().primal_bound == better(log_primal(old(self).events@), obj),
            final(self).events@.last().dual_bound == log_dual(old(self).events@),
            final(self).its == old(self).its,
            final(self).timer == old(self).timer,
            final(self).start_time == old(self).start_time,
            final(self).underlying == old(self).underlying,
            old(self).timer.shows(final(self).events@.last().time),
            old(self).wf() ==> final(self).wf(),
    {
        let in_force = self.current_primal();
        let primal_bound = if obj.less(&in_force) {
            obj
        } else {
            in_force
        };
        let event = SolverEvent {
            time: self.timer.time(),
            it: self.its,
            primal_bound,
            dual_bound: self.current_dual(),
        };
        self.events.push(event);
    }
}

impl<T: Timer, P: Problem, SK: SolutionKeeper<P>> SolutionKeeper<P> for SolverStats<T, P, SK> {
    /// The best objective is that of the keeper wrapped.
    open spec fn spec_best_obj(&self) -> P::Obj {
        self.underlying.spec_best_obj()
    }

    /// The best solution is that of the keeper wrapped.
    open spec fn spec_best_sol(&self) -> Option<P::Sol> {
        self.underlying.spec_best_sol()
    }

    /// The dual bound is that of the keeper wrapped.
    open spec fn spec_dual_bound(&self) -> P::Obj {
        self.underlying.spec_dual_bound()
    }

    /// The log is monotone and in step with the keeper wrapped, which
    /// maintains what it maintains.
    open spec fn inv(&self) -> bool {
        &&& self.wf()
        &&& self.in_step()
        &&& self.underlying.inv()
    }

    /// A call of `iter` counts one iteration more, up to the largest count
    /// that fits, reads the clock, and marks the iteration in the keeper
    /// wrapped; the log is left as it is.
    open spec fn marked(&self, after: &Self) -> bool {
        &&& after.its == if self.its < u64::MAX {
            (self.its + 1) as u64
        } else {
            self.its
        }
        &&& after.events == self.events
        &&& after.timer == self.timer
        &&& after.start_time == self.start_time
        &&& self.timer.shows(after.last_time)
        &&& self.underlying.marked(&after.underlying)
    }

    /// Logs the primal bound that `obj` leaves in force, then hands the
    /// solution to the keeper wrapped.
    fn add_solution(&mut self, sol: &P::Sol, obj: P::Obj)
        ensures
            final(self).events@.len() == old(self).events@.len() + 1,
            final(self).events@.drop_last() == old(self).events@,
            final(self).events@.last().it == old(self).its,
            final(self).events@.last().primal_bound == better(log_primal(old(self).events@), obj),
            final(self).events@.last().dual_bound == log_dual(old(self).events@),
            final(self).its == old(self).its,
            final(self).timer == old(self).timer,
            final(self).start_time == old(self).start_time,
            old(self).timer.shows(final(self).events@.last().time),
            old(self).wf() ==> final(self).wf(),
            old(self).in_step() ==> final(self).in_step(),
    {
        self.log_solution(obj);
        self.underlying.add_solution(sol, obj);
    }

    /// Logs the primal bound that `obj` leaves in force, then hands the
    /// producer to the keeper wrapped, which runs it only if it keeps the
    /// solution.
    fn add_solution_fn<F: FnOnce() -> P::Sol>(&mut self, f: F, obj: P::Obj)
        ensures
            final(self).events@.len() == old(self).events@.len() + 1,
            final(self).events@.drop_last() == old(self).events@,
            final(self).events@.last().it == old(self).its,
            final(self).events@.last().primal_bound == better(log_primal(old(self).events@), obj),
            final(self).events@.last().dual_bound == log_dual(old(self).events@),
            final(self).its == old(self).its,
            final(self).timer == old(self).timer,
            final(self).start_time == old(self).start_time,
            old(self).timer.shows(final(self).events@.last().time),
            old(self).wf() ==> final(self).wf(),
            old(self).in_step() ==> final(self).in_step(),
    {
        self.log_solution(obj);
        self.underlying.add_solution_fn(f, obj);
    }

    /// Logs the dual bound that `db` leaves in force, then hands the bound
    /// to the keeper wrapped.
    fn add_dual_bound(&mut self, db: P::Obj)
        ensures
            final(self).events@.len() == old(self).events@.len() + 1,
            final(self).events@.drop_last() == old(self).events@,
            final(self).events@.last().it == old(self).its,
            final(self).events@.last().primal_bound == log_primal(old(self).events@),
            final(self).events@.last().dual_bound == raised(log_dual(old(self).events@), db),
            final(self).its == old(self).its,
            final(self).timer == old(self).timer,
            final(self).start_time == old(self).start_time,
            old(self).timer.shows(final(self).events@.last().time),
            old(self).wf() ==> final(self).wf(),
            old(self).in_step() ==> final(self).in_step(),
    {
        let in_force = self.current_dual();
        let dual_bound = if db.less(&in_force) {
            in_force
        } else {
            db
        };
        let event = SolverEvent {
            time: self.timer.time(),
            it: self.its,
            primal_bound: self.current_primal(),
            dual_bound,
        };
        self.events.push(event);
        self.underlying.add_dual_bound(db);
    }

    /// The best solution of the keeper wrapped.
    fn best_solution(&self) -> (r: Option<(P::Sol, P::Obj)>) {
        let r = self.underlying.best_solution();
        assert(self.spec_best_sol() == self.underlying.spec_best_sol());
        r
    }

    /// Counts one iteration more, up to the largest count that fits, reads
    /// the clock and marks the iteration in the keeper wrapped.
    fn iter(&mut self)
        ensures
            old(self).wf() ==> final(self).wf(),
            old(self).in_step() ==> final(self).in_step(),
    {
        if self.its < u64::MAX {
            self.its += 1;
        }
        self.last_time = self.timer.time();
        self.underlying.iter();
    }
}

} // verus!
