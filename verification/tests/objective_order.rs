use mopper::base::rng::{Rng, Splitmix64};
use mopper::base::stop_condition::{
    RdtscTimerInstant, Span, StdTimer, StopCondition, TimeStop, Timer,
};
use mopper::base::{Objective, Problem, SimpleSolutionKeeper, SolutionKeeper};
use mopper::problem::Obj;

#[test]
fn test_obj_ord() {
    let a = Obj::<f64>::Unbounded;
    let b = Obj::<f64>::Value(1f64);
    let c = Obj::<f64>::Value(2f64);
    let d = Obj::<f64>::Infeasible;
    assert!(a < b);
    assert!(b < c);
    assert!(c < d);
    assert!(a <= a);
    assert!(b <= b);
    assert!(c <= c);
    assert!(d <= d);
}

#[test]
fn obj_at_most_agrees_with_the_operators() {
    let all = [
        Obj::<i64>::Unbounded,
        Obj::Value(-3),
        Obj::Value(0),
        Obj::Value(7),
        Obj::Infeasible,
    ];
    for x in all.iter() {
        for y in all.iter() {
            assert_eq!(x.at_most(y), x <= y);
            assert_eq!(x.at_least(y), x >= y);
        }
    }
    assert!(Obj::<i64>::Unbounded.at_most(&Obj::Value(i64::MIN)));
    assert!(Obj::Value(i64::MAX).at_most(&Obj::<i64>::Infeasible));
    assert!(!Obj::<i64>::Infeasible.at_most(&Obj::Value(i64::MAX)));
}

#[test]
fn obj_with_a_value_that_has_no_order() {
    let nan = Obj::Value(f64::NAN);
    let one = Obj::Value(1f64);
    assert!(!nan.at_most(&one));
    assert!(!nan.at_least(&one));
    assert!(Obj::<f64>::Unbounded.at_most(&nan));
    assert!(nan.at_most(&Obj::<f64>::Infeasible));
}

#[test]
fn splitmix64_stream_from_seed_zero() {
    let mut rng = Splitmix64::from_u64(0);
    assert_eq!(rng.next_u64(), 0xe220a8397b1dcdaf);
    assert_eq!(rng.next_u64(), 0x6e789e6aa1b965f4);
    assert_eq!(rng.next_u64(), 0x06c45d188009454f);
}

#[test]
fn splitmix64_equal_seeds_give_equal_streams() {
    let mut a = Splitmix64::from_u64(0xdead_beef);
    let mut b = Splitmix64::from_u64(0xdead_beef);
    let mut c = a.clone();
    for _ in 0..1000 {
        let x = a.next_u64();
        assert_eq!(x, b.next_u64());
        assert_eq!(x, c.next_u64());
    }
    assert_eq!(a.0, b.0);
}

#[test]
fn splitmix64_state_moves_by_the_increment() {
    let mut rng = Splitmix64::from_u64(u64::MAX);
    rng.next_u64();
    assert_eq!(rng.0, 0x9e3779b97f4a7c14);
    let mut other = Splitmix64::from_u64(1);
    assert_ne!(other.next_u64(), Splitmix64::from_u64(2).next_u64());
}

#[derive(Clone, Copy, Debug, PartialEq)]
struct Cost(i64);

impl Objective for Cost {
    fn unfeas() -> Self {
        Cost(i64::MAX)
    }
    fn unbounded() -> Self {
        Cost(i64::MIN)
    }
    fn is_feas(&self) -> bool {
        self.0 != i64::MAX
    }
    fn is_bounded(&self) -> bool {
        self.0 != i64::MIN
    }
    fn less(&self, other: &Self) -> bool {
        self.0 < other.0
    }
    fn value(&self) -> i64 {
        self.0
    }
}

#[derive(Clone)]
struct Anything;

impl Problem for Anything {
    type Sol = &'static str;
    type Obj = Cost;
    fn obj(&self, sol: &Self::Sol) -> Cost {
        Cost(sol.len() as i64)
    }
    fn is_feasible(&self, sol: &Self::Sol) -> bool {
        self.obj(sol).is_feas()
    }
}

#[test]
fn simple_keeper_keeps_the_strictly_better() {
    let mut sk = SimpleSolutionKeeper::<Anything>::default();
    assert!(sk.best_solution().is_none());
    assert_eq!(sk.best_obj(), Cost(i64::MAX));
    assert_eq!(sk.dual_bound, Cost(i64::MIN));
    sk.add_solution(&"first", Cost(50));
    assert_eq!(sk.best_solution(), Some(("first", Cost(50))));
    sk.add_solution(&"worse", Cost(60));
    assert_eq!(sk.best_solution(), Some(("first", Cost(50))));
    sk.add_solution(&"equal", Cost(50));
    assert_eq!(sk.best_solution(), Some(("first", Cost(50))));
    sk.add_solution_fn(|| "better", Cost(40));
    assert_eq!(sk.best_solution(), Some(("better", Cost(40))));
    assert_eq!(sk.best_obj(), Cost(40));
    sk.iter();
    assert_eq!(sk.best_obj(), Cost(40));
}

#[test]
fn simple_keeper_builds_a_solution_only_when_it_keeps_it() {
    let mut sk = SimpleSolutionKeeper::<Anything>::default();
    sk.add_solution(&"kept", Cost(1));
    sk.add_solution_fn(|| panic!("the producer must not run"), Cost(2));
    assert_eq!(sk.best_solution(), Some(("kept", Cost(1))));
}

#[test]
fn simple_keeper_never_keeps_an_infeasible_candidate() {
    let mut sk = SimpleSolutionKeeper::<Anything>::default();
    sk.add_solution(&"void", Cost::unfeas());
    assert!(sk.best_solution().is_none());
}

#[test]
fn simple_keeper_dual_bound_only_rises() {
    let mut sk = SimpleSolutionKeeper::<Anything>::default();
    sk.add_dual_bound(Cost(10));
    assert_eq!(sk.dual_bound, Cost(10));
    sk.add_dual_bound(Cost(5));
    assert_eq!(sk.dual_bound, Cost(10));
    sk.add_dual_bound(Cost(20));
    assert_eq!(sk.dual_bound, Cost(20));
    assert!(sk.best_solution().is_none());
}

#[test]
fn feasibility_agrees_with_the_objective() {
    let p = Anything;
    for s in ["", "a", "abc"] {
        assert_eq!(p.is_feasible(&s), p.obj(&s) != Cost::unfeas());
    }
    assert!(Cost::unbounded().less(&Cost(0)));
    assert!(Cost(0).less(&Cost::unfeas()));
    assert!(Cost::unbounded().less(&Cost::unfeas()));
    assert!(!Cost::unfeas().is_feas());
    assert!(!Cost::unbounded().is_bounded());
}

#[test]
fn span_covers_by_length() {
    let a = Span::new(2, 500_000_000);
    let b = Span::new(2, 499_999_999);
    let c = Span::new(3, 0);
    assert_eq!(a.as_secs(), 2);
    assert_eq!(a.subsec_nanos(), 500_000_000);
    assert!(a.covers(&b));
    assert!(!b.covers(&a));
    assert!(a.covers(&a));
    assert!(c.covers(&a));
    assert!(!a.covers(&c));
    assert!(a.covers(&Span::new(0, 999_999_999)));
}

#[test]
fn tick_readings_subtract_to_spans() {
    let later = RdtscTimerInstant::<1000>(5500);
    let earlier = RdtscTimerInstant::<1000>(2000);
    let d = later.sub(earlier);
    assert_eq!((d.as_secs(), d.subsec_nanos()), (3, 500_000_000));
    let same = later.sub(later);
    assert_eq!((same.as_secs(), same.subsec_nanos()), (0, 0));
    let fast = RdtscTimerInstant::<3_000_000_000>(7_500_000_001);
    let d = fast.sub(RdtscTimerInstant::<3_000_000_000>(0));
    assert_eq!((d.as_secs(), d.subsec_nanos()), (2, 500_000_000));
    let fine = RdtscTimerInstant::<{ u64::MAX }>(u64::MAX - 1);
    let d = fine.sub(RdtscTimerInstant::<{ u64::MAX }>(0));
    assert_eq!((d.as_secs(), d.subsec_nanos()), (0, 999_999_999));
}

#[test]
fn tick_readings_add_spans() {
    let start = RdtscTimerInstant::<1000>(2000);
    assert_eq!(
        start.add(Span::new(2, 250_000_000)),
        Some(RdtscTimerInstant::<1000>(4250))
    );
    assert_eq!(start.add(Span::new(0, 999_999)), Some(start));
    assert_eq!(start.add(Span::new(0, 1_000_000)), Some(RdtscTimerInstant::<1000>(2001)));
    assert_eq!(start.add(Span::new(u64::MAX, 0)), None);
    let top = RdtscTimerInstant::<1>(u64::MAX - 1);
    assert_eq!(top.add(Span::new(1, 0)), Some(RdtscTimerInstant::<1>(u64::MAX)));
    assert_eq!(top.add(Span::new(2, 0)), None);
}

#[test]
fn time_stop_fires_when_the_budget_is_used_up() {
    let mut spent = TimeStop::new(StdTimer, Span::new(0, 0));
    assert!(spent.stop(Cost(1), Cost(0)));
    let mut ample = TimeStop::new(StdTimer, Span::new(3600, 0));
    assert!(!ample.stop(Cost(1), Cost(0)));
    assert!(ample.expired(Span::new(3600, 0)));
    assert!(ample.expired(Span::new(3600, 1)));
    assert!(!ample.expired(Span::new(3599, 999_999_999)));
    let mut again = ample.clone();
    assert_eq!(again.duration, Span::new(3600, 0));
    assert!(!StopCondition::<Cost>::stop(&mut again, Cost(1), Cost(0)));
}

#[test]
fn std_timer_never_runs_backwards() {
    let timer = StdTimer;
    let a = timer.time();
    let b = timer.time();
    let forwards = StdTimer::since(b, a);
    let backwards = StdTimer::since(a, b);
    assert!(forwards.covers(&backwards));
    // the time from a later reading to an earlier one is no time
    assert_eq!((backwards.as_secs(), backwards.subsec_nanos()), (0, 0));
    let later = a + std::time::Duration::new(3, 7);
    let gap = StdTimer::since(later, a);
    assert_eq!((gap.as_secs(), gap.subsec_nanos()), (3, 7));
}

/// A clock that shows one second more at each reading, from zero.
#[derive(Clone, Default)]
struct Ticking(std::cell::Cell<u64>);

impl Timer for Ticking {
    type Instant = u64;
    fn time(&self) -> u64 {
        let now = self.0.get();
        self.0.set(now + 1);
        now
    }
    fn since(later: u64, earlier: u64) -> Span {
        Span::new(later.saturating_sub(earlier), 0)
    }
}

#[test]
fn time_stop_fires_at_the_first_reading_that_uses_the_budget_up() {
    // the start is the reading 0; the polls read 1, 2, 3, ...
    let mut stop = TimeStop::new(Ticking::default(), Span::new(3, 0));
    assert_eq!(stop.start, 0);
    assert!(!stop.stop(Cost(1), Cost(0)));
    assert!(!stop.stop(Cost(1), Cost(0)));
    assert!(stop.stop(Cost(1), Cost(0)));
    assert!(stop.stop(Cost(1), Cost(0)));
    assert_eq!(stop.start, 0);
    assert_eq!(stop.duration, Span::new(3, 0));
    // a budget that a whole second does not quite use up
    let mut longer = TimeStop::new(Ticking::default(), Span::new(1, 1));
    assert!(!longer.stop(Cost(1), Cost(0)));
    assert!(longer.stop(Cost(1), Cost(0)));
    // a clone starts at the reading that it is made at
    let again = stop.clone();
    assert_eq!(again.start, 5);
    assert_eq!(again.duration, Span::new(3, 0));
}
