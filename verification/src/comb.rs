use vstd::prelude::*;
use vstd::std_specs::bits::{axiom_u64_trailing_zeros, u64_trailing_zeros};
use crate::problem::{values_ordered, Obj, Problem, Solver, SolverEvent};
use crate::utils::bitarray::bit;

verus! {

/// A subset of a ground set of items `0, 1, ...`, fewer than
/// `ground_set_size`. Every method is a function of the set.
///
/// The spec functions are what the contracts of the methods speak of; an
/// implementation gives them their bodies.
pub trait GroundSetX: Sized {
    open spec fn spec_contains_item(&self, i: usize) -> bool {
        arbitrary()
    }

    open spec fn spec_ground_set_size(&self) -> usize {
        arbitrary()
    }

    /// The set with item `i` switched.
    open spec fn spec_switched(&self, i: usize) -> Self {
        arbitrary()
    }

    open spec fn spec_empty() -> Self {
        arbitrary()
    }

    /// Returns true iff item `i` is in the set.
    fn contains_item(&self, i: usize) -> (b: bool)
        ensures
            b == self.spec_contains_item(i),
    ;

    /// Adds the item if it was not in the set and removes it otherwise;
    /// returns true if the item was added. No other item is touched.
    fn switch_item(&mut self, i: usize) -> (added: bool)
        requires
            i < old(self).spec_ground_set_size(),
        ensures
            *final(self) == old(self).spec_switched(i),
            added == !old(self).spec_contains_item(i),
            final(self).spec_contains_item(i) == added,
            forall|j: usize|
                j != i ==> final(self).spec_contains_item(j) == old(self).spec_contains_item(j),
            final(self).spec_ground_set_size() == old(self).spec_ground_set_size(),
    ;

    /// The items in the set: each once, and no other.
    fn iter(&self) -> (items: Vec<usize>)
        ensures
            items@.no_duplicates(),
            forall|i: usize| items@.contains(i) <==> self.spec_contains_item(i),
    ;

    /// Returns the number of elements in the ground set.
    fn ground_set_size(&self) -> (n: usize)
        ensures
            n == self.spec_ground_set_size(),
    ;

    /// Returns the empty set.
    fn empty() -> (s: Self)
        ensures
            s == Self::spec_empty(),
            forall|i: usize| !s.spec_contains_item(i),
    ;
}

/// A problem whose solutions are subsets of a ground set.
pub trait GroundSetProblem: Problem where Self::X: GroundSetX {

}

/// The `i`-th word of the reflected binary code, in which each word differs
/// from the one before in one bit.
pub open spec fn gray(i: u64) -> u64 {
    i ^ (i >> 1)
}

/// The walk meets no set twice and never the empty set again: different
/// steps have different words, a step below `2^n` has a word below `2^n`, and
/// only the start has the word without bits.
pub proof fn lemma_gray_words_differ(i: u64, j: u64, n: u64)
    requires
        n < 64,
        i < (1u64 << n),
    ensures
        gray(i) == gray(j) ==> i == j,
        gray(i) < (1u64 << n),
        gray(i) == 0 ==> i == 0,
{
    assert((i ^ (i >> 1)) == (j ^ (j >> 1)) ==> i == j) by (bit_vector);
    assert((i ^ (i >> 1)) < (1u64 << n)) by (bit_vector)
        requires
            n < 64,
            i < (1u64 << n),
    ;
    assert((i ^ (i >> 1)) == 0 ==> i == 0) by (bit_vector);
}

/// The place of the bit in which the `i`-th word of the code differs from the
/// one before.
pub open spec fn flipped_item(i: u64) -> u32 {
    u64_trailing_zeros(gray(i) ^ gray((i - 1) as u64))
}

/// The items of the set are the bits of the `i`-th word of the code.
pub open spec fn follows_gray<X: GroundSetX>(set: &X, i: u64) -> bool {
    forall|j: usize|
        j < set.spec_ground_set_size() ==> #[trigger] set.spec_contains_item(j) == bit(
            gray(i),
            j as u64,
        )
}

/// The set after `i` steps of the walk from the empty set.
pub open spec fn visited<X: GroundSetX>(i: u64) -> X
    decreases i,
{
    if i == 0 {
        X::spec_empty()
    } else {
        visited::<X>((i - 1) as u64).spec_switched(flipped_item(i) as usize)
    }
}

/// Takes step `i` of the walk: switches the one item in which the `i`-th word
/// of the code differs from the one before, and returns it.
pub fn gray_step<X: GroundSetX>(set: &mut X, i: u64) -> (d: usize)
    requires
        old(set).spec_ground_set_size() < 64,
        1 <= i < (1u64 << (old(set).spec_ground_set_size() as u64)),
        follows_gray(old(set), (i - 1) as u64),
    ensures
        d == flipped_item(i),
        d < old(set).spec_ground_set_size(),
        *final(set) == old(set).spec_switched(d),
        final(set).spec_ground_set_size() == old(set).spec_ground_set_size(),
        follows_gray(final(set), i),
{
    let n: u64 = set.ground_set_size() as u64;
    let lgc: u64 = (i - 1) ^ ((i - 1) >> 1);
    let gc: u64 = i ^ (i >> 1);
    let g: u64 = gc ^ lgc;
    let d: u32 = g.trailing_zeros();
    proof {
        axiom_u64_trailing_zeros(g);
        let prev = (i - 1) as u64;
        assert(g != 0) by (bit_vector)
            requires
                i == prev + 1,
                g == (i ^ (i >> 1)) ^ (prev ^ (prev >> 1)),
        ;
        let low = (g - 1) as u64;
        assert(g & low == 0) by (bit_vector)
            requires
                i == prev + 1,
                g == low + 1,
                g == (i ^ (i >> 1)) ^ (prev ^ (prev >> 1)),
        ;
        let t = d as u64;
        assert(g == 1u64 << t) by (bit_vector)
            requires
                t < 64,
                (g >> t) & 1 == 1,
                g == low + 1,
                g & low == 0,
        ;
        assert(t < n) by (bit_vector)
            requires
                n < 64,
                i == prev + 1,
                i < (1u64 << n),
                g == (i ^ (i >> 1)) ^ (prev ^ (prev >> 1)),
                g == 1u64 << t,
                t < 64,
        ;
    }
    let ghost before = *set;
    set.switch_item(d as usize);
    proof {
        let t = d as u64;
        assert forall|j: usize| j < set.spec_ground_set_size() implies #[trigger] set.spec_contains_item(
            j,
        ) == bit(gray(i), j as u64) by {
            let c = j as u64;
            assert(before.spec_contains_item(j) == bit(lgc, c));
            assert(bit(gc, c) == (bit(lgc, c) != (c == t))) by (bit_vector)
                requires
                    gc ^ lgc == 1u64 << t,
                    t < 64,
                    c < 64,
            ;
        }
    }
    d as usize
}

/// The improvements that the walk has met after `i` steps, each a set with
/// its value, and the bound they leave: a set counts if it is feasible and
/// its value is at most the bound left by those before it.
pub open spec fn improvements<P: GroundSetProblem>(p: &P, i: u64) -> (
    Seq<(P::X, P::Z)>,
    Obj<P::Z>,
) where P::X: GroundSetX
    decreases i,
{
    if i == 0 {
        (Seq::empty(), Obj::Infeasible)
    } else {
        let before = improvements(p, (i - 1) as u64);
        let set = visited::<P::X>(i);
        let z = p.spec_obj(&set);
        if p.spec_feas(&set) && Obj::Value(z).at_most_spec(before.1) {
            (before.0.push((set, z)), Obj::Value(z))
        } else {
            before
        }
    }
}

/// The events report the improvements in `found.0`, each as a solution that
/// is a clone of the set, and then the bound `found.1` as primal and as dual
/// bound.
pub open spec fn is_report<P: Problem>(
    found: (Seq<(P::X, P::Z)>, Obj<P::Z>),
    events: Seq<SolverEvent<P>>,
) -> bool {
    &&& events.len() == found.0.len() + 2
    &&& forall|k: int|
        0 <= k < found.0.len() ==> match #[trigger] events[k] {
            SolverEvent::Solution(x, z) => cloned(found.0[k].0, x) && z == found.0[k].1,
            _ => false,
        }
    &&& events[events.len() - 2] == SolverEvent::<P>::PrimalBound(found.1)
    &&& events[events.len() - 1] == SolverEvent::<P>::DualBound(found.1)
}

/// The number of steps of the walk over a ground set of `n` items: one for
/// each subset but the empty one.
pub open spec fn walk_len(n: usize) -> u64 {
    ((1u64 << (n as u64)) - 1) as u64
}

/// The number of items as a word.
pub open spec fn to_word(n: usize) -> u64 {
    n as u64
}

/// Computes the number of steps of the walk.
fn steps_of_walk(n: usize) -> (last: u64)
    requires
        n < 64,
    ensures
        last == walk_len(n),
        last + 1 == 1u64 << (n as u64),
{
    let shift: u64 = n as u64;
    assert(1u64 << shift >= 1) by (bit_vector)
        requires
            shift < 64,
    ;
    (1u64 << shift) - 1
}

/// The empty set follows the code at its first word, which has no bit set.
proof fn lemma_empty_follows_gray<X: GroundSetX>(set: &X)
    requires
        forall|i: usize| !set.spec_contains_item(i),
    ensures
        follows_gray(set, 0),
{
    assert(gray(0) == 0) by (bit_vector);
    assert forall|j: usize| j < set.spec_ground_set_size() implies #[trigger] set.spec_contains_item(
        j,
    ) == bit(gray(0), j as u64) by {
        let c = j as u64;
        assert(!bit(0u64, c)) by (bit_vector);
    }
}

/// The solver that tries every subset of the ground set but the empty one,
/// in the order of the reflected binary code, so that each step switches one
/// item.
pub struct GroundSetProblemEnumerationSolver {}

impl<P: GroundSetProblem> Solver<P> for GroundSetProblemEnumerationSolver where P::X: GroundSetX {
    /// The ground set has fewer than 64 items.
    open spec fn ready(&self, p: &P) -> bool {
        P::X::spec_empty().spec_ground_set_size() < 64
    }

    /// The events report the improvements met on the whole walk, and the
    /// bound they leave as both bounds.
    open spec fn reports(&self, p: P, events: Seq<SolverEvent<P>>) -> bool {
        values_ordered::<P::Z>() ==> is_report(
            improvements(&p, walk_len(P::X::spec_empty().spec_ground_set_size())),
            events,
        )
    }

    fn solve(&mut self, p: P) -> (events: Vec<SolverEvent<P>>) {
        let mut events: Vec<SolverEvent<P>> = Vec::new();
        let mut set = P::X::empty();
        let n = set.ground_set_size();
        let mut final_bound: Obj<P::Z> = Obj::Infeasible;
        let last = steps_of_walk(n);
        proof {
            lemma_empty_follows_gray(&set);
        }
        let ghost mut found: Seq<(P::X, P::Z)> = Seq::empty();
        let mut done: u64 = 0;
        while done < last
            invariant
                done <= last,
                last == walk_len(n),
                last + 1 == 1u64 << to_word(n),
                n < 64,
                set.spec_ground_set_size() == n,
                set == visited::<P::X>(done),
                follows_gray(&set, done),
                values_ordered::<P::Z>() ==> (found, final_bound) == improvements(&p, done),
                events@.len() == found.len(),
                forall|k: int|
                    0 <= k < found.len() ==> match #[trigger] events@[k] {
                        SolverEvent::Solution(x, z) => cloned(found[k].0, x) && z == found[k].1,
                        _ => false,
                    },
            decreases last - done,
        {
            done += 1;
            gray_step(&mut set, done);
            if p.feas(&set) {
                let z = p.obj(&set);
                if Obj::Value(z).at_most(&final_bound) {
                    final_bound = Obj::Value(z);
                    let kept = set.clone();
                    events.push(SolverEvent::Solution(kept, z));
                    proof {
                        found = found.push((set, z));
                    }
                }
            }
        }
        events.push(SolverEvent::PrimalBound(final_bound));
        events.push(SolverEvent::DualBound(final_bound));
        events
    }
}

} // verus!
