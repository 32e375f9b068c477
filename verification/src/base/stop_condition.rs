use vstd::prelude::*;
use crate::base::Objective;

verus! {

/// Nanoseconds in one second.
pub const NANOS_PER_SEC: u32 = 1_000_000_000;

/// A span of time: whole seconds and the nanoseconds beyond them, which stay
/// below one second.
#[derive(Clone, Copy, Debug, PartialEq, Eq)]
pub struct Span {
    secs: u64,
    nanos: u32,
}

impl Span {
    #[verifier::type_invariant]
    spec fn inv(self) -> bool {
        self.nanos < NANOS_PER_SEC
    }

    /// The whole seconds of the span.
    pub closed spec fn secs(self) -> u64 {
        self.secs
    }

    /// The nanoseconds beyond the whole seconds.
    pub closed spec fn nanos(self) -> u32 {
        self.nanos
    }

    /// The span in nanoseconds.
    pub open spec fn as_nanos(self) -> int {
        self.secs() * NANOS_PER_SEC + self.nanos()
    }

    /// The span of `secs` seconds and `nanos` nanoseconds.
    pub closed spec fn spec_new(secs: u64, nanos: u32) -> Self {
        Span { secs, nanos }
    }

    /// The span of `secs` seconds and `nanos` nanoseconds.
    pub fn new(secs: u64, nanos: u32) -> (r: Self)
        requires
            nanos < NANOS_PER_SEC,
        ensures
            r == Self::spec_new(secs, nanos),
            r.secs() == secs,
            r.nanos() == nanos,
    {
        Span { secs, nanos }
    }

    /// The whole seconds of the span.
    pub fn as_secs(&self) -> (r: u64)
        ensures
            r == self.secs(),
    {
        self.secs
    }

    /// The nanoseconds beyond the whole seconds; fewer than a second's.
    pub fn subsec_nanos(&self) -> (r: u32)
        ensures
            r == self.nanos(),
            r < NANOS_PER_SEC,
    {
        proof {
            use_type_invariant(self);
        }
        self.nanos
    }

    /// Whether the span is at least as long as `other`.
    pub fn covers(&self, other: &Span) -> (b: bool)
        ensures
            b == (self.as_nanos() >= other.as_nanos()),
    {
        proof {
            use_type_invariant(self);
            use_type_invariant(other);
        }
        assert(self.secs > other.secs ==> self.secs * NANOS_PER_SEC >= other.secs * NANOS_PER_SEC
            + NANOS_PER_SEC) by (nonlinear_arith);
        assert(self.secs < other.secs ==> other.secs * NANOS_PER_SEC >= self.secs * NANOS_PER_SEC
            + NANOS_PER_SEC) by (nonlinear_arith);
        self.secs > other.secs || (self.secs == other.secs && self.nanos >= other.nanos)
    }
}

/// A clock to time engines with.
///
/// `shows` says which readings the clock can give and `spans` which spans
/// can be the time between two readings; an implementation gives them their
/// bodies. Left as they are, they say that nothing is known of the clock.
pub trait Timer: Clone + Default {
    type Instant: Copy;

    /// Whether the clock can give the reading `instant`.
    open spec fn shows(&self, instant: Self::Instant) -> bool {
        true
    }

    /// Whether `d` can be the time from the reading `earlier` to the reading
    /// `later`.
    open spec fn spans(later: Self::Instant, earlier: Self::Instant, d: Span) -> bool {
        true
    }

    /// The current reading of the clock.
    fn time(&self) -> (now: Self::Instant)
        ensures
            self.shows(now),
    ;

    /// The time from `earlier` to `later`; nothing if `later` is not after.
    fn since(later: Self::Instant, earlier: Self::Instant) -> (d: Span)
        ensures
            Self::spans(later, earlier, d),
    ;
}

#[verifier::external_type_specification]
#[verifier::external_body]
pub struct ExInstant(std::time::Instant);

/// Reads the monotonic clock with `std::time::Instant::now`. Trusted; nothing
/// is claimed of the reading.
#[verifier::external_body]
fn instant_now() -> std::time::Instant {
    std::time::Instant::now()
}

/// The time from `earlier` to `later`, by
/// `std::time::Instant::saturating_duration_since`, with its seconds and
/// nanoseconds read off by `as_secs` and `subsec_nanos`. Trusted; the one
/// claim made is that of the standard library, that the nanoseconds are
/// fewer than a second's, which is what makes the result a span.
#[verifier::external_body]
fn instant_since(later: std::time::Instant, earlier: std::time::Instant) -> Span {
    let d = later.saturating_duration_since(earlier);
    Span { secs: d.as_secs(), nanos: d.subsec_nanos() }
}

/// The monotonic clock of the standard library.
#[derive(Clone, Default)]
pub struct StdTimer;

impl Timer for StdTimer {
    type Instant = std::time::Instant;

    fn time(&self) -> Self::Instant {
        instant_now()
    }

    fn since(later: Self::Instant, earlier: Self::Instant) -> Span {
        instant_since(later, earlier)
    }
}

/// The clock that engines are timed with unless another is named.
pub type DefaultTimer = StdTimer;

/// A clock that counts the ticks of a counter that runs at `TICKS_PER_SEC`.
///
/// The type holds the arithmetic of such a clock: how a count of ticks
/// becomes a reading and what time lies between two readings. Reading the
/// counter itself takes the processor; a program that does so builds its
/// `Timer` on this arithmetic.
#[derive(Clone, Default)]
pub struct RdtscTimer<const TICKS_PER_SEC: u64>;

impl<const TICKS_PER_SEC: u64> RdtscTimer<TICKS_PER_SEC> {
    /// The reading that a count of ticks stands for.
    pub fn reading(ticks: u64) -> (r: RdtscTimerInstant<TICKS_PER_SEC>)
        ensures
            r.0 == ticks,
    {
        RdtscTimerInstant(ticks)
    }

    /// The time from `earlier` to `later`: that of the ticks between them,
    /// as `RdtscTimerInstant::sub` gives it; no time if `later` is not after
    /// `earlier` or the counter has no rate.
    pub fn since(later: RdtscTimerInstant<TICKS_PER_SEC>, earlier: RdtscTimerInstant<TICKS_PER_SEC>)
        -> (d: Span)
        ensures
            if TICKS_PER_SEC > 0 && earlier.0 <= later.0 {
                &&& d.secs() == (later.0 - earlier.0) / (TICKS_PER_SEC as int)
                &&& d.nanos() == ((later.0 - earlier.0) % (TICKS_PER_SEC as int)) * NANOS_PER_SEC
                    / (TICKS_PER_SEC as int)
            } else {
                d.secs() == 0 && d.nanos() == 0
            },
    {
        if TICKS_PER_SEC > 0 && earlier.0 <= later.0 {
            later.sub(earlier)
        } else {
            Span::new(0, 0)
        }
    }
}

/// A reading of a tick counter that runs at `TICKS_PER_SEC`.
#[derive(Clone, Copy, Debug, PartialEq, Eq, PartialOrd, Ord)]
pub struct RdtscTimerInstant<const TICKS_PER_SEC: u64>(pub u64);

impl<const TICKS_PER_SEC: u64> RdtscTimerInstant<TICKS_PER_SEC> {
    /// The time from `rhs` to `self`: the whole seconds that the ticks between
    /// them make, and the rest in nanoseconds, rounded down.
    pub fn sub(self, rhs: Self) -> (d: Span)
        requires
            TICKS_PER_SEC > 0,
            rhs.0 <= self.0,
        ensures
            d.secs() == (self.0 - rhs.0) / (TICKS_PER_SEC as int),
            d.nanos() == ((self.0 - rhs.0) % (TICKS_PER_SEC as int)) * NANOS_PER_SEC / (
            TICKS_PER_SEC as int),
    {
        let ticks: u64 = self.0 - rhs.0;
        let secs: u64 = ticks / TICKS_PER_SEC;
        let rest: u128 = (ticks % TICKS_PER_SEC) as u128;
        assert(rest * 1_000_000_000 < TICKS_PER_SEC * 1_000_000_000) by (nonlinear_arith)
            requires
                rest < TICKS_PER_SEC,
        ;
        assert(TICKS_PER_SEC * 1_000_000_000 <= 0xffff_ffff_ffff_ffff * 1_000_000_000)
            by (nonlinear_arith)
            requires
                TICKS_PER_SEC <= 0xffff_ffff_ffff_ffff,
        ;
        let scaled: u128 = rest * 1_000_000_000;
        let nanos: u128 = scaled / (TICKS_PER_SEC as u128);
        assert(nanos < 1_000_000_000) by (nonlinear_arith)
            requires
                nanos == scaled / (TICKS_PER_SEC as u128),
                scaled < TICKS_PER_SEC * 1_000_000_000,
                TICKS_PER_SEC > 0,
        ;
        Span::new(secs, nanos as u32)
    }

    /// The reading that lies `rhs` after `self`: the ticks that the seconds
    /// make and those that the nanoseconds make, rounded down. `None` if the
    /// counter cannot hold it.
    pub fn add(self, rhs: Span) -> (r: Option<Self>)
        ensures
            r == if self.0 + span_ticks(rhs, TICKS_PER_SEC) <= u64::MAX {
                Some(RdtscTimerInstant::<TICKS_PER_SEC>((self.0 + span_ticks(rhs, TICKS_PER_SEC)) as u64))
            } else {
                None
            },
    {
        let secs = rhs.as_secs();
        let nanos = rhs.subsec_nanos();
        assert(secs * TICKS_PER_SEC <= 0xffff_ffff_ffff_ffff * 0xffff_ffff_ffff_ffff)
            by (nonlinear_arith)
            requires
                secs <= 0xffff_ffff_ffff_ffff,
                TICKS_PER_SEC <= 0xffff_ffff_ffff_ffff,
        ;
        assert(nanos * TICKS_PER_SEC <= 1_000_000_000 * 0xffff_ffff_ffff_ffff)
            by (nonlinear_arith)
            requires
                nanos <= 1_000_000_000,
                TICKS_PER_SEC <= 0xffff_ffff_ffff_ffff,
        ;
        let whole: u128 = (secs as u128) * (TICKS_PER_SEC as u128);
        let part: u128 = ((nanos as u128) * (TICKS_PER_SEC as u128)) / 1_000_000_000;
        let ticks: u128 = whole + part;
        let end: u128 = self.0 as u128 + ticks;
        if end <= u64::MAX as u128 {
            Some(RdtscTimerInstant(end as u64))
        } else {
            None
        }
    }
}

/// The ticks that a span makes on a counter that runs at `ticks_per_sec`.
pub open spec fn span_ticks(d: Span, ticks_per_sec: u64) -> int {
    d.secs() * ticks_per_sec + (d.nanos() * ticks_per_sec) / (NANOS_PER_SEC as int)
}

/// Decides, from the current primal and dual bounds, whether an engine halts.
///
/// An engine polls it at least once per iteration, before any expensive work.
/// `polled` says what a poll can answer and how it can leave the stop
/// condition; an implementation gives it its body.
pub trait StopCondition<Obj: Objective>: Clone {
    /// Whether a poll with these bounds can answer `halt` and leave the stop
    /// condition as `after`.
    open spec fn polled(&self, primal_bound: Obj, dual_bound: Obj, halt: bool, after: &Self)
        -> bool {
        true
    }

    fn stop(&mut self, primal_bound: Obj, dual_bound: Obj) -> (halt: bool)
        ensures
            old(self).polled(primal_bound, dual_bound, halt, final(self)),
    ;
}

/// `k` polls in a row that all answered "go on", and left the stop condition
/// `start` as `end`. Poll `i` was made with the primal bound `primal(i)` and
/// the unbounded sentinel as dual bound.
pub open spec fn went_on<O: Objective, S: StopCondition<O>>(
    start: S,
    primal: spec_fn(nat) -> O,
    k: nat,
    end: S,
) -> bool
    decreases k,
{
    if k == 0 {
        end == start
    } else {
        exists|mid: S|
            went_on(start, primal, (k - 1) as nat, mid) && #[trigger] mid.polled(
                primal((k - 1) as nat),
                O::spec_unbounded(),
                false,
                &end,
            )
    }
}

/// One more poll that answers "go on" extends a row of such polls.
pub proof fn lemma_went_on_extends<O: Objective, S: StopCondition<O>>(
    start: S,
    primal: spec_fn(nat) -> O,
    k: nat,
    mid: S,
    end: S,
)
    requires
        went_on(start, primal, k, mid),
        mid.polled(primal(k), O::spec_unbounded(), false, &end),
    ensures
        went_on(start, primal, k + 1, end),
{
    let n = k + 1;
    assert(went_on(start, primal, (n - 1) as nat, mid) && mid.polled(
        primal((n - 1) as nat),
        O::spec_unbounded(),
        false,
        &end,
    ));
}

/// The polls that the stop condition `stop` can be put through, as a
/// predicate on records of polls. The record `(primal, k, last)` stands for
/// `k` polls in a row that answered "go on", poll `i` made with the primal
/// bound `primal(i)`, and, where `last` is an answer, one more poll, made with
/// `primal(k)`, that gave that answer: `true` for "halt". Every poll is made
/// with the unbounded sentinel as dual bound.
pub open spec fn polls_of<O: Objective, S: StopCondition<O>>(stop: S) -> spec_fn(
    spec_fn(nat) -> O,
    nat,
    Option<bool>,
) -> bool {
    |primal: spec_fn(nat) -> O, k: nat, last: Option<bool>|
        exists|end: S|
            #[trigger] went_on(stop, primal, k, end) && match last {
                Some(halt) => answered(end, primal(k), halt),
                None => true,
            }
}

/// A poll of `at` with the primal bound `primal` and the unbounded sentinel
/// as dual bound that gave the answer `halt`.
pub open spec fn answered<O: Objective, S: StopCondition<O>>(at: S, primal: O, halt: bool) -> bool {
    exists|after: S| #[trigger] at.polled(primal, O::spec_unbounded(), halt, &after)
}

/// The stop condition that fires once a time budget is used up.
pub struct TimeStop<T: Timer> {
    pub timer: T,
    pub start: T::Instant,
    pub duration: Span,
}

impl<T: Timer> TimeStop<T> {
    /// A budget of `duration` that starts now: at a reading of the clock.
    pub fn new(timer: T, duration: Span) -> (r: Self)
        ensures
            r.timer == timer,
            r.duration == duration,
            timer.shows(r.start),
    {
        let time = timer.time();
        TimeStop { timer, start: time, duration }
    }

    /// Whether the budget is used up once `elapsed` has passed since the
    /// start: the time passed is at least the duration.
    pub fn expired(&self, elapsed: Span) -> (b: bool)
        ensures
            b == (elapsed.as_nanos() >= self.duration.as_nanos()),
    {
        elapsed.covers(&self.duration)
    }
}

impl<T: Timer, Obj: Objective> StopCondition<Obj> for TimeStop<T> {
    /// A poll leaves the stop condition as it is. Its answer is whether the
    /// budget is used up: whether the time from the start to a reading of
    /// the clock, as the clock gives it, is at least the duration.
    open spec fn polled(&self, primal_bound: Obj, dual_bound: Obj, halt: bool, after: &Self)
        -> bool {
        &&& *after == *self
        &&& exists|now: T::Instant, elapsed: Span|
            {
                &&& self.timer.shows(now)
                &&& #[trigger] T::spans(now, self.start, elapsed)
                &&& halt == (elapsed.as_nanos() >= self.duration.as_nanos())
            }
    }

    /// Reads the clock and fires if the budget is used up at that reading.
    fn stop(&mut self, _primal_bound: Obj, _dual_bound: Obj) -> (halt: bool) {
        let now = self.timer.time();
        let elapsed = T::since(now, self.start);
        self.expired(elapsed)
    }
}

/// A budget of no time is used up at every poll.
pub proof fn lemma_no_budget_halts<T: Timer, Obj: Objective>(
    stop: TimeStop<T>,
    primal_bound: Obj,
    dual_bound: Obj,
    halt: bool,
    after: TimeStop<T>,
)
    requires
        stop.polled(primal_bound, dual_bound, halt, &after),
        stop.duration.as_nanos() == 0,
    ensures
        halt,
{
}

/// While less than the budget has passed at every reading that the clock can
/// give, no poll answers "halt".
pub proof fn lemma_ample_budget_goes_on<T: Timer, Obj: Objective>(
    stop: TimeStop<T>,
    primal_bound: Obj,
    dual_bound: Obj,
    halt: bool,
    after: TimeStop<T>,
)
    requires
        stop.polled(primal_bound, dual_bound, halt, &after),
        forall|now: T::Instant, elapsed: Span|
            stop.timer.shows(now) && #[trigger] T::spans(now, stop.start, elapsed)
                ==> elapsed.as_nanos() < stop.duration.as_nanos(),
    ensures
        !halt,
{
}

impl<T: Timer> Clone for TimeStop<T> {
    /// A budget of the same duration, on a clone of the clock, that starts
    /// now: at a reading of the clock cloned.
    fn clone(&self) -> (r: Self)
        ensures
            r.duration == self.duration,
            cloned(self.timer, r.timer),
            self.timer.shows(r.start),
    {
        let time = self.timer.time();
        TimeStop { timer: self.timer.clone(), start: time, duration: self.duration }
    }
}

} // verus!
