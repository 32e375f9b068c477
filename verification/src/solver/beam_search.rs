use vstd::prelude::*;
use crate::base::stop_condition::{
    answered, lemma_went_on_extends, polls_of, went_on, StopCondition,
};
use crate::base::tree_space::{Tree, TreeGuided, TreeIndirect, TreeIndirectGuided};
use crate::base::{better, Objective, Problem, SolutionKeeper, Solver};
use crate::solver::MAX_ROUNDS;
use crate::solver::ranking::{
    is_stable_order, is_stable_sort, lemma_stable_order_onto, lemma_stable_sort_unique,
    sort_by_guide,
};
use crate::utils::set::{AlwaysEmptySet, DuplicateSet};
use std::marker::PhantomData;

verus! {

/// The candidate expansions of the node `n`, which stands at place `i` of the
/// beam: for each child, in the order of enumeration, its goodness, `i` and
/// its identifier.
pub open spec fn node_candidates<P: Problem, TS: TreeIndirectGuided<P>>(
    ts: &TS,
    n: &TS::Node,
    i: usize,
) -> Seq<(TS::Guide, usize, TS::ChildId)> {
    let ids = ts.spec_children_id(n);
    Seq::new(ids.len(), |j: int| (ts.spec_goodness(&ts.spec_child(n, &ids[j])), i, ids[j]))
}

/// The candidate expansions of a beam: those of its nodes, in beam order.
pub open spec fn candidates<P: Problem, TS: TreeIndirectGuided<P>>(
    ts: &TS,
    beam: Seq<TS::Node>,
) -> Seq<(TS::Guide, usize, TS::ChildId)>
    decreases beam.len(),
{
    if beam.len() == 0 {
        Seq::empty()
    } else {
        candidates(ts, beam.drop_last()) + node_candidates(
            ts,
            &beam.last(),
            (beam.len() - 1) as usize,
        )
    }
}

/// What a keeper holds after the leaves of a beam were reported, in beam
/// order, each with its solution and its objective, if it held the objective
/// `kept.0` and the solution `kept.1` before: a leaf is taken if its
/// objective is strictly better than the one held.
pub open spec fn report_leaves<P: Problem, TS: TreeIndirectGuided<P>>(
    ts: &TS,
    beam: Seq<TS::Node>,
    kept: (P::Obj, Option<P::Sol>),
) -> (P::Obj, Option<P::Sol>)
    decreases beam.len(),
{
    if beam.len() == 0 {
        kept
    } else {
        let before = report_leaves(ts, beam.drop_last(), kept);
        match ts.spec_objective(&beam.last()) {
            Some(o) => if o.key() < before.0.key() {
                (o, ts.spec_to_solution(&beam.last()))
            } else {
                before
            },
            None => before,
        }
    }
}

/// Reports the leaves of `beam` to the keeper, each with its solution and
/// its objective, and lists the candidate expansions of its other nodes.
pub fn expand<P: Problem, TS: TreeIndirectGuided<P>, SK: SolutionKeeper<P>>(
    ts: &TS,
    beam: &Vec<TS::Node>,
    sk: &mut SK,
) -> (cands: Vec<(TS::Guide, usize, TS::ChildId)>)
    ensures
        cands@ == candidates(ts, beam@),
        (final(sk).spec_best_obj(), final(sk).spec_best_sol()) == report_leaves(
            ts,
            beam@,
            (old(sk).spec_best_obj(), old(sk).spec_best_sol()),
        ),
        final(sk).spec_dual_bound() == old(sk).spec_dual_bound(),
        old(sk).inv() ==> final(sk).inv(),
{
    let mut cands: Vec<(TS::Guide, usize, TS::ChildId)> = Vec::new();
    let ghost kept_before = (sk.spec_best_obj(), sk.spec_best_sol());
    let mut i: usize = 0;
    while i < beam.len()
        invariant
            0 <= i <= beam.len(),
            cands@ == candidates(ts, beam@.take(i as int)),
            (sk.spec_best_obj(), sk.spec_best_sol()) == report_leaves(
                ts,
                beam@.take(i as int),
                kept_before,
            ),
            sk.spec_dual_bound() == old(sk).spec_dual_bound(),
            old(sk).inv() ==> sk.inv(),
        decreases beam.len() - i,
    {
        let n = &beam[i];
        let ghost before = cands@;
        let ghost all = ts.spec_children_id(n);
        let ids = ts.children_id(n);
        for cid in it: ids
            invariant
                it.seq() == all,
                all == ts.spec_children_id(n),
                cands@ == before + node_candidates(ts, n, i).take(it.index()),
        {
            let goodness = ts.child_goodness(n, &cid);
            cands.push((goodness, i, cid));
        }
        match ts.objective(n) {
            Some(obj) => {
                let build = || -> (s: P::Sol)
                    ensures
                        Some(s) == ts.spec_to_solution(n),
                    { ts.to_solution(n).unwrap() };
                sk.add_solution_fn(build, obj);
            },
            None => {},
        }
        proof {
            assert(beam@.take(i + 1).drop_last() == beam@.take(i as int));
            assert(node_candidates(ts, n, i).take(all.len() as int) == node_candidates(ts, n, i));
        }
        i += 1;
    }
    proof {
        assert(beam@.take(beam.len() as int) == beam@);
    }
    cands
}

/// Every candidate names a place of the beam.
pub open spec fn parents_in_beam<G, C>(cands: Seq<(G, usize, C)>, len: nat) -> bool {
    forall|i: int| 0 <= i < cands.len() ==> (#[trigger] cands[i]).1 < len
}

/// The child of one candidate is built and inserted in the duplicate set
/// `acc.1`; it joins the nodes `acc.0` unless the set held it already.
pub open spec fn select_step<P: Problem, TS: TreeIndirectGuided<P>, D: DuplicateSet<TS::Node>>(
    ts: &TS,
    beam: Seq<TS::Node>,
    acc: (Seq<TS::Node>, D::State),
    cand: (TS::Guide, usize, TS::ChildId),
) -> (Seq<TS::Node>, D::State) {
    let child = ts.spec_child(&beam[cand.1 as int], &cand.2);
    if D::spec_contains(acc.1, &child) {
        (acc.0, D::spec_insert(acc.1, &child))
    } else {
        (acc.0.push(child), D::spec_insert(acc.1, &child))
    }
}

/// The children of the candidates `taken` that the duplicate set did not
/// hold, in order, and the set after all of them were inserted in turn,
/// starting from the set `set`.
pub open spec fn unseen<P: Problem, TS: TreeIndirectGuided<P>, D: DuplicateSet<TS::Node>>(
    ts: &TS,
    beam: Seq<TS::Node>,
    set: D::State,
    taken: Seq<(TS::Guide, usize, TS::ChildId)>,
) -> (Seq<TS::Node>, D::State)
    decreases taken.len(),
{
    if taken.len() == 0 {
        (Seq::empty(), set)
    } else {
        select_step::<P, TS, D>(
            ts,
            beam,
            unseen::<P, TS, D>(ts, beam, set, taken.drop_last()),
            taken.last(),
        )
    }
}

/// The number of candidates taken from `len` ranked ones at beam width `w`:
/// all of them, up to `w`.
pub open spec fn taken_count(len: nat, w: nat) -> nat {
    if len <= w {
        len
    } else {
        w
    }
}

/// The next beam and the duplicate set after a selection at beam width `w`:
/// the first `w` candidates in ranked order are taken, all if there are
/// fewer, and of their children those join the beam that the duplicate set
/// did not hold. No other candidate is looked at.
pub open spec fn select<P: Problem, TS: TreeIndirectGuided<P>, D: DuplicateSet<TS::Node>>(
    ts: &TS,
    beam: Seq<TS::Node>,
    w: nat,
    set: D::State,
    ranked: Seq<(TS::Guide, usize, TS::ChildId)>,
) -> (Seq<TS::Node>, D::State) {
    unseen::<P, TS, D>(ts, beam, set, ranked.take(taken_count(ranked.len(), w) as int))
}

/// Builds the next beam from the candidates in ranked order: the first
/// `beam_width` candidates are taken, all if there are fewer; their children
/// are built one by one and kept unless the duplicate set held them already.
pub fn select_children<P: Problem, TS: TreeIndirectGuided<P>, D: DuplicateSet<TS::Node>>(
    ts: &TS,
    beam: &Vec<TS::Node>,
    ranked: &Vec<(TS::Guide, usize, TS::ChildId)>,
    set: &mut D,
    beam_width: usize,
) -> (next: Vec<TS::Node>)
    requires
        old(set).wf(),
        parents_in_beam(ranked@, beam@.len()),
    ensures
        final(set).wf(),
        (next@, final(set).state()) == select::<P, TS, D>(
            ts,
            beam@,
            beam_width as nat,
            old(set).state(),
            ranked@,
        ),
{
    let mut next: Vec<TS::Node> = Vec::new();
    let ghost set_before = set.state();
    let taken: usize = if ranked.len() <= beam_width {
        ranked.len()
    } else {
        beam_width
    };
    let mut i: usize = 0;
    while i < taken
        invariant
            0 <= i <= taken <= ranked.len(),
            set.wf(),
            parents_in_beam(ranked@, beam@.len()),
            (next@, set.state()) == unseen::<P, TS, D>(
                ts,
                beam@,
                set_before,
                ranked@.take(i as int),
            ),
        decreases taken - i,
    {
        let cand = &ranked[i];
        let child = ts.child(&beam[cand.1], &cand.2);
        proof {
            assert(ranked@.take(i + 1).drop_last() == ranked@.take(i as int));
        }
        if !set.insert(&child) {
            next.push(child);
        }
        i += 1;
    }
    next
}

/// Every candidate expansion of a beam names a place of that beam.
pub proof fn lemma_candidates_name_parents<P: Problem, TS: TreeIndirectGuided<P>>(
    ts: &TS,
    beam: Seq<TS::Node>,
)
    requires
        beam.len() <= usize::MAX,
    ensures
        parents_in_beam(candidates(ts, beam), beam.len()),
    decreases beam.len(),
{
    if beam.len() > 0 {
        lemma_candidates_name_parents(ts, beam.drop_last());
    }
}

/// A kind of duplicate set that never takes an item for a duplicate.
pub open spec fn never_rejects<T, D: DuplicateSet<T>>() -> bool {
    forall|s: D::State, x: T| !(#[trigger] D::spec_contains(s, &x))
}

/// The set that is always empty never rejects.
pub proof fn lemma_always_empty_never_rejects<T>()
    ensures
        never_rejects::<T, AlwaysEmptySet>(),
{
}

/// The child that a candidate stands for.
pub open spec fn child_of<P: Problem, TS: TreeIndirectGuided<P>>(
    ts: &TS,
    beam: Seq<TS::Node>,
    cand: (TS::Guide, usize, TS::ChildId),
) -> TS::Node {
    ts.spec_child(&beam[cand.1 as int], &cand.2)
}

/// The nodes kept are no more than the candidates taken, and each is the
/// child of one of them.
pub proof fn lemma_unseen_are_children<
    P: Problem,
    TS: TreeIndirectGuided<P>,
    D: DuplicateSet<TS::Node>,
>(ts: &TS, beam: Seq<TS::Node>, set: D::State, taken: Seq<(TS::Guide, usize, TS::ChildId)>)
    ensures
        unseen::<P, TS, D>(ts, beam, set, taken).0.len() <= taken.len(),
        forall|a: int|
            0 <= a < unseen::<P, TS, D>(ts, beam, set, taken).0.len() ==> exists|i: int|
                0 <= i < taken.len() && (#[trigger] unseen::<P, TS, D>(ts, beam, set, taken).0[a])
                    == child_of(ts, beam, #[trigger] taken[i]),
    decreases taken.len(),
{
    if taken.len() > 0 {
        let front = taken.drop_last();
        lemma_unseen_are_children::<P, TS, D>(ts, beam, set, front);
        let before = unseen::<P, TS, D>(ts, beam, set, front).0;
        let all = unseen::<P, TS, D>(ts, beam, set, taken).0;
        assert forall|a: int| 0 <= a < all.len() implies exists|i: int|
            0 <= i < taken.len() && (#[trigger] all[a]) == child_of(ts, beam, #[trigger] taken[i]) by {
            if a < before.len() {
                let i = choose|i: int|
                    0 <= i < front.len() && before[a] == child_of(ts, beam, #[trigger] front[i]);
                assert(taken[i] == front[i]);
                assert(all[a] == before[a]);
            } else {
                assert(all[a] == child_of(ts, beam, taken[taken.len() - 1]));
            }
        }
    }
}

/// The next beam holds no more nodes than the beam width and no more than
/// there are candidates, and each of its nodes is the child of one of the
/// candidates taken: of the first ones in ranked order, as many as the beam
/// width allows. No child of a candidate beyond them enters the beam.
pub proof fn lemma_select_bounded<P: Problem, TS: TreeIndirectGuided<P>, D: DuplicateSet<TS::Node>>(
    ts: &TS,
    beam: Seq<TS::Node>,
    w: nat,
    set: D::State,
    ranked: Seq<(TS::Guide, usize, TS::ChildId)>,
)
    ensures
        select::<P, TS, D>(ts, beam, w, set, ranked).0.len() <= w,
        select::<P, TS, D>(ts, beam, w, set, ranked).0.len() <= ranked.len(),
        forall|a: int|
            0 <= a < select::<P, TS, D>(ts, beam, w, set, ranked).0.len() ==> exists|i: int|
                0 <= i < taken_count(ranked.len(), w) && (#[trigger] select::<P, TS, D>(
                    ts,
                    beam,
                    w,
                    set,
                    ranked,
                ).0[a]) == child_of(ts, beam, #[trigger] ranked[i]),
{
    let m = taken_count(ranked.len(), w) as int;
    let taken = ranked.take(m);
    lemma_unseen_are_children::<P, TS, D>(ts, beam, set, taken);
    let next = select::<P, TS, D>(ts, beam, w, set, ranked).0;
    assert forall|a: int| 0 <= a < next.len() implies exists|i: int|
        0 <= i < m && (#[trigger] next[a]) == child_of(ts, beam, #[trigger] ranked[i]) by {
        let i = choose|i: int|
            0 <= i < taken.len() && next[a] == child_of(ts, beam, #[trigger] taken[i]);
        assert(taken[i] == ranked[i]);
    }
}

/// With a duplicate set that never rejects, the children of all the
/// candidates taken are kept.
pub proof fn lemma_unseen_without_rejections<
    P: Problem,
    TS: TreeIndirectGuided<P>,
    D: DuplicateSet<TS::Node>,
>(ts: &TS, beam: Seq<TS::Node>, set: D::State, taken: Seq<(TS::Guide, usize, TS::ChildId)>)
    requires
        never_rejects::<TS::Node, D>(),
    ensures
        unseen::<P, TS, D>(ts, beam, set, taken).0 == Seq::new(
            taken.len(),
            |i: int| child_of(ts, beam, taken[i]),
        ),
    decreases taken.len(),
{
    if taken.len() > 0 {
        let front = taken.drop_last();
        lemma_unseen_without_rejections::<P, TS, D>(ts, beam, set, front);
        let acc = unseen::<P, TS, D>(ts, beam, set, front);
        assert(!D::spec_contains(acc.1, &child_of(ts, beam, taken.last())));
        assert forall|i: int| 0 <= i < front.len() implies front[i] == taken[i] by {}
    }
}

/// With a duplicate set that never rejects, the next beam holds the children
/// of the first candidates in ranked order, as many as the beam width allows.
pub proof fn lemma_select_takes_front<P: Problem, TS: TreeIndirectGuided<P>, D: DuplicateSet<TS::Node>>(
    ts: &TS,
    beam: Seq<TS::Node>,
    w: nat,
    set: D::State,
    ranked: Seq<(TS::Guide, usize, TS::ChildId)>,
)
    requires
        never_rejects::<TS::Node, D>(),
    ensures
        select::<P, TS, D>(ts, beam, w, set, ranked).0 == Seq::new(
            taken_count(ranked.len(), w),
            |i: int| child_of(ts, beam, ranked[i]),
        ),
{
    let taken = ranked.take(taken_count(ranked.len(), w) as int);
    lemma_unseen_without_rejections::<P, TS, D>(ts, beam, set, taken);
    assert forall|i: int| 0 <= i < taken.len() implies taken[i] == ranked[i] by {}
}

/// Top selection. With a duplicate set that never rejects, the next beam
/// holds as many children as there are candidates, up to the beam width;
/// they are the children of distinct candidates, and no candidate left out
/// has a smaller guide than one that was taken.
pub proof fn lemma_beam_keeps_smallest_guides<
    P: Problem,
    TS: TreeIndirectGuided<P>,
    D: DuplicateSet<TS::Node>,
>(
    ts: &TS,
    beam: Seq<TS::Node>,
    w: nat,
    set: D::State,
    ranked: Seq<(TS::Guide, usize, TS::ChildId)>,
    perm: Seq<int>,
)
    requires
        never_rejects::<TS::Node, D>(),
        is_stable_order(candidates(ts, beam), ranked, perm),
    ensures
        ({
            let cands = candidates(ts, beam);
            let next = select::<P, TS, D>(ts, beam, w, set, ranked).0;
            let m = if cands.len() <= w {
                cands.len()
            } else {
                w
            };
            &&& next.len() == m
            &&& forall|i: int| 0 <= i < m ==> #[trigger] next[i] == child_of(ts, beam, cands[perm[i]])
            &&& forall|i: int, j: int| 0 <= i < j < m ==> #[trigger] perm[i] != #[trigger] perm[j]
            &&& forall|i: int, c: int|
                0 <= i < m && 0 <= c < cands.len() && (forall|a: int| 0 <= a < m ==> perm[a] != c)
                    ==> (#[trigger] cands[perm[i]]).0.key() <= (#[trigger] cands[c]).0.key()
        }),
{
    let cands = candidates(ts, beam);
    let m = if cands.len() <= w {
        cands.len()
    } else {
        w
    };
    lemma_select_takes_front::<P, TS, D>(ts, beam, w, set, ranked);
    assert forall|i: int, c: int|
        0 <= i < m && 0 <= c < cands.len() && (forall|a: int|
            0 <= a < m ==> perm[a] != c) implies (#[trigger] cands[perm[i]]).0.key() <= (
    #[trigger] cands[c]).0.key() by {
        lemma_stable_order_onto(cands, ranked, perm, c);
        let j = choose|j: int| 0 <= j < perm.len() && perm[j] == c;
        assert(j >= m);
        assert(ranked[i] == cands[perm[i]]);
        assert(ranked[j] == cands[perm[j]]);
        assert(ranked[i].0.key() <= ranked[j].0.key());
    }
}

/// Beam width one is greedy best-first search. With a duplicate set that
/// never rejects and at least one candidate, the next beam holds one node:
/// the child of the candidate with the smallest guide, the first of them in
/// the order of enumeration.
pub proof fn lemma_width_one_is_greedy<
    P: Problem,
    TS: TreeIndirectGuided<P>,
    D: DuplicateSet<TS::Node>,
>(
    ts: &TS,
    beam: Seq<TS::Node>,
    set: D::State,
    ranked: Seq<(TS::Guide, usize, TS::ChildId)>,
    perm: Seq<int>,
)
    requires
        never_rejects::<TS::Node, D>(),
        is_stable_order(candidates(ts, beam), ranked, perm),
        candidates(ts, beam).len() > 0,
    ensures
        ({
            let cands = candidates(ts, beam);
            let next = select::<P, TS, D>(ts, beam, 1, set, ranked).0;
            &&& next == seq![child_of(ts, beam, cands[perm[0]])]
            &&& forall|c: int|
                0 <= c < cands.len() ==> cands[perm[0]].0.key() <= (#[trigger] cands[c]).0.key()
            &&& forall|c: int|
                0 <= c < perm[0] ==> cands[perm[0]].0.key() < (#[trigger] cands[c]).0.key()
        }),
{
    let cands = candidates(ts, beam);
    lemma_select_takes_front::<P, TS, D>(ts, beam, 1, set, ranked);
    assert(ranked[0] == cands[perm[0]]);
    assert forall|c: int| 0 <= c < cands.len() implies cands[perm[0]].0.key() <= (
    #[trigger] cands[c]).0.key() by {
        lemma_stable_order_onto(cands, ranked, perm, c);
        let j = choose|j: int| 0 <= j < perm.len() && perm[j] == c;
        assert(ranked[j] == cands[perm[j]]);
        if j > 0 {
            assert(ranked[0].0.key() <= ranked[j].0.key());
        }
    }
    assert forall|c: int| 0 <= c < perm[0] implies cands[perm[0]].0.key() < (
    #[trigger] cands[c]).0.key() by {
        lemma_stable_order_onto(cands, ranked, perm, c);
        let j = choose|j: int| 0 <= j < perm.len() && perm[j] == c;
        assert(ranked[j] == cands[perm[j]]);
        assert(j > 0);
        assert(ranked[0].0.key() <= ranked[j].0.key());
        if ranked[0].0.key() == ranked[j].0.key() {
            assert(perm[0] < perm[j]);
        }
    }
}

/// One layer of beam search. A state is the beam, the duplicate set and the
/// keeper's best objective and solution. From a non-empty beam the leaves are reported,
/// the candidates are ranked by guide, stably, and the next beam is selected
/// from them.
pub open spec fn is_layer<P: Problem, TS: TreeIndirectGuided<P>, D: DuplicateSet<TS::Node>>(
    ts: &TS,
    w: nat,
    from: (Seq<TS::Node>, D::State, P::Obj, Option<P::Sol>),
    to: (Seq<TS::Node>, D::State, P::Obj, Option<P::Sol>),
) -> bool {
    &&& from.0.len() > 0
    &&& (to.2, to.3) == report_leaves(ts, from.0, (from.2, from.3))
    &&& exists|ranked: Seq<(TS::Guide, usize, TS::ChildId)>|
        is_stable_sort(candidates(ts, from.0), ranked) && (to.0, to.1) == #[trigger] select::<
            P,
            TS,
            D,
        >(ts, from.0, w, from.1, ranked)
}

/// `to` is reached from `from` in `k` layers.
pub open spec fn reaches<P: Problem, TS: TreeIndirectGuided<P>, D: DuplicateSet<TS::Node>>(
    ts: &TS,
    w: nat,
    from: (Seq<TS::Node>, D::State, P::Obj, Option<P::Sol>),
    k: nat,
    to: (Seq<TS::Node>, D::State, P::Obj, Option<P::Sol>),
) -> bool
    decreases k,
{
    if k == 0 {
        to == from
    } else {
        exists|mid: (Seq<TS::Node>, D::State, P::Obj, Option<P::Sol>)|
            reaches::<P, TS, D>(ts, w, from, (k - 1) as nat, mid) && #[trigger] is_layer::<
                P,
                TS,
                D,
            >(ts, w, mid, to)
    }
}

/// A layer is determined by the state it starts from.
pub proof fn lemma_layer_is_determined<
    P: Problem,
    TS: TreeIndirectGuided<P>,
    D: DuplicateSet<TS::Node>,
>(
    ts: &TS,
    w: nat,
    from: (Seq<TS::Node>, D::State, P::Obj, Option<P::Sol>),
    to1: (Seq<TS::Node>, D::State, P::Obj, Option<P::Sol>),
    to2: (Seq<TS::Node>, D::State, P::Obj, Option<P::Sol>),
)
    requires
        is_layer::<P, TS, D>(ts, w, from, to1),
        is_layer::<P, TS, D>(ts, w, from, to2),
    ensures
        to1 == to2,
{
    let r1 = choose|ranked: Seq<(TS::Guide, usize, TS::ChildId)>|
        is_stable_sort(candidates(ts, from.0), ranked) && (to1.0, to1.1) == #[trigger] select::<
            P,
            TS,
            D,
        >(ts, from.0, w, from.1, ranked);
    let r2 = choose|ranked: Seq<(TS::Guide, usize, TS::ChildId)>|
        is_stable_sort(candidates(ts, from.0), ranked) && (to2.0, to2.1) == #[trigger] select::<
            P,
            TS,
            D,
        >(ts, from.0, w, from.1, ranked);
    lemma_stable_sort_unique(candidates(ts, from.0), r1, r2);
}

/// A run is determined by the state it starts from and the number of its
/// layers: two runs of as many layers from one state end alike.
pub proof fn lemma_run_is_determined<
    P: Problem,
    TS: TreeIndirectGuided<P>,
    D: DuplicateSet<TS::Node>,
>(
    ts: &TS,
    w: nat,
    from: (Seq<TS::Node>, D::State, P::Obj, Option<P::Sol>),
    k: nat,
    to1: (Seq<TS::Node>, D::State, P::Obj, Option<P::Sol>),
    to2: (Seq<TS::Node>, D::State, P::Obj, Option<P::Sol>),
)
    requires
        reaches::<P, TS, D>(ts, w, from, k, to1),
        reaches::<P, TS, D>(ts, w, from, k, to2),
    ensures
        to1 == to2,
    decreases k,
{
    if k > 0 {
        let m1 = choose|mid: (Seq<TS::Node>, D::State, P::Obj, Option<P::Sol>)|
            reaches::<P, TS, D>(ts, w, from, (k - 1) as nat, mid) && #[trigger] is_layer::<
                P,
                TS,
                D,
            >(ts, w, mid, to1);
        let m2 = choose|mid: (Seq<TS::Node>, D::State, P::Obj, Option<P::Sol>)|
            reaches::<P, TS, D>(ts, w, from, (k - 1) as nat, mid) && #[trigger] is_layer::<
                P,
                TS,
                D,
            >(ts, w, mid, to2);
        lemma_run_is_determined::<P, TS, D>(ts, w, from, (k - 1) as nat, m1, m2);
        lemma_layer_is_determined::<P, TS, D>(ts, w, m1, to1, to2);
    }
}

/// The keeper's best objective after `k` layers from `from`.
pub open spec fn best_after_layers<
    P: Problem,
    TS: TreeIndirectGuided<P>,
    D: DuplicateSet<TS::Node>,
>(ts: &TS, w: nat, from: (Seq<TS::Node>, D::State, P::Obj, Option<P::Sol>), k: nat) -> P::Obj {
    (choose|to: (Seq<TS::Node>, D::State, P::Obj, Option<P::Sol>)| reaches::<P, TS, D>(ts, w, from, k, to)).2
}

/// The best objective after `k` layers is that of any state reached in `k`
/// layers.
pub proof fn lemma_best_after_layers<
    P: Problem,
    TS: TreeIndirectGuided<P>,
    D: DuplicateSet<TS::Node>,
>(
    ts: &TS,
    w: nat,
    from: (Seq<TS::Node>, D::State, P::Obj, Option<P::Sol>),
    k: nat,
    to: (Seq<TS::Node>, D::State, P::Obj, Option<P::Sol>),
)
    requires
        reaches::<P, TS, D>(ts, w, from, k, to),
    ensures
        best_after_layers::<P, TS, D>(ts, w, from, k) == to.2,
{
    let other = choose|to: (Seq<TS::Node>, D::State, P::Obj, Option<P::Sol>)|
        reaches::<P, TS, D>(ts, w, from, k, to);
    lemma_run_is_determined::<P, TS, D>(ts, w, from, k, to, other);
}

/// Layer-by-layer search of an indirect guided tree that keeps at most
/// `beam_width` nodes per layer: those whose guides are smallest, after
/// duplicates were pruned by a set of type `D`.
pub struct BeamSearch<
    P: Problem,
    TS: TreeIndirectGuided<P>,
    D: DuplicateSet<TS::Node> = AlwaysEmptySet,
> {
    beam_width: usize,
    _p: PhantomData<P>,
    _ts: PhantomData<TS>,
    _s: PhantomData<D>,
}

impl<P: Problem, TS: TreeIndirectGuided<P>, D: DuplicateSet<TS::Node>> Clone for BeamSearch<
    P,
    TS,
    D,
> {
    fn clone(&self) -> (r: Self)
        ensures
            r.width() == self.width(),
    {
        BeamSearch { beam_width: self.beam_width, _p: PhantomData, _ts: PhantomData, _s: PhantomData }
    }
}

impl<P: Problem, TS: TreeIndirectGuided<P>, D: DuplicateSet<TS::Node>> BeamSearch<P, TS, D> {
    /// The number of nodes kept per layer.
    pub closed spec fn width(&self) -> usize {
        self.beam_width
    }

    /// A beam search that keeps `beam_width` nodes per layer.
    pub fn new(beam_width: usize) -> (r: Self)
        requires
            beam_width > 0,
        ensures
            r.width() == beam_width,
    {
        BeamSearch { beam_width, _p: PhantomData, _ts: PhantomData, _s: PhantomData }
    }

    /// One layer from a beam that is not empty: the keeper is told of the
    /// iteration; the leaves of the beam are reported, each with its
    /// solution and its objective, and the candidates of its other nodes
    /// listed; the candidates are ranked by guide, stably;
    /// and the next beam is selected from them, `beam_width` nodes at most.
    pub fn layer<SK: SolutionKeeper<P>>(
        ts: &TS,
        beam: &Vec<TS::Node>,
        set: &mut D,
        sk: &mut SK,
        beam_width: usize,
    ) -> (next: Vec<TS::Node>)
        requires
            beam@.len() > 0,
            old(set).wf(),
        ensures
            final(set).wf(),
            is_layer::<P, TS, D>(
                ts,
                beam_width as nat,
                (beam@, old(set).state(), old(sk).spec_best_obj(), old(sk).spec_best_sol()),
                (next@, final(set).state(), final(sk).spec_best_obj(), final(sk).spec_best_sol()),
            ),
            final(sk).spec_dual_bound() == old(sk).spec_dual_bound(),
            old(sk).inv() ==> final(sk).inv(),
    {
        sk.iter();
        let ghost from = (beam@, set.state(), sk.spec_best_obj(), sk.spec_best_sol());
        let mut cands = expand(ts, beam, sk);
        sort_by_guide(&mut cands);
        let nodes = beam.len();
        proof {
            assert(beam@.len() == nodes);
            lemma_candidates_name_parents(ts, beam@);
            let perm = choose|perm: Seq<int>| is_stable_order(candidates(ts, beam@), cands@, perm);
            assert forall|i: int| 0 <= i < cands@.len() implies (#[trigger] cands@[i]).1
                < beam@.len() by {
                assert(cands@[i] == candidates(ts, beam@)[perm[i]]);
            }
        }
        let next = select_children(ts, beam, &cands, set, beam_width);
        proof {
            let to = (next@, set.state(), sk.spec_best_obj(), sk.spec_best_sol());
            assert((to.0, to.1) == select::<P, TS, D>(ts, from.0, beam_width as nat, from.1, cands@));
        }
        next
    }
}

impl<P: Problem, TS: TreeIndirectGuided<P>, D: DuplicateSet<TS::Node>> Solver<P> for BeamSearch<
    P,
    TS,
    D,
> {
    open spec fn ready(&self, p: &P) -> bool {
        true
    }

    /// The run starts from the beam that holds the root alone, with an empty
    /// duplicate set, and goes through some number of layers. Before each
    /// layer the stop condition is polled with the keeper's best objective,
    /// and all these polls answered "go on". The run ended because the
    /// layers of a run were used up, or after one more poll: that poll
    /// answered "halt", or it answered "go on" and the beam was empty. The
    /// keeper ends with the best objective and the solution of the last
    /// state. Its dual bound is left as it is.
    open spec fn outcome(
        &self,
        p: &P,
        polls: spec_fn(spec_fn(nat) -> P::Obj, nat, Option<bool>) -> bool,
        best_before: P::Obj,
        sol_before: Option<P::Sol>,
        dual_before: P::Obj,
        after: &Self,
        best_after: P::Obj,
        sol_after: Option<P::Sol>,
        dual_after: P::Obj,
    ) -> bool {
        let ts = TS::spec_from(p);
        let from = (seq![ts.spec_root()], D::spec_empty(), best_before, sol_before);
        let kept = |i: nat| best_after_layers::<P, TS, D>(&ts, self.width() as nat, from, i);
        &&& after.width() == self.width()
        &&& dual_after == dual_before
        &&& exists|k: nat, end: (Seq<TS::Node>, D::State, P::Obj, Option<P::Sol>)|
            {
                &&& k <= MAX_ROUNDS
                &&& best_after == end.2
                &&& sol_after == end.3
                &&& #[trigger] reaches::<P, TS, D>(&ts, self.width() as nat, from, k, end)
                &&& {
                    ||| k == MAX_ROUNDS && polls(kept, k, None)
                    ||| polls(kept, k, Some(true))
                    ||| end.0.len() == 0 && polls(kept, k, Some(false))
                }
            }
    }

    fn is_ready(&self, p: &P) -> (b: bool) {
        true
    }

    fn solve<SK: SolutionKeeper<P>, S: StopCondition<P::Obj>>(
        &mut self,
        p: P,
        sk: &mut SK,
        stop: S,
    ) {
        let ghost first = stop;
        let mut stop = stop;
        let ts = TS::from(&p);
        let mut set = D::empty();
        let mut beam: Vec<TS::Node> = Vec::new();
        beam.push(ts.root());
        let ghost w = self.beam_width as nat;
        let ghost start = (beam@, set.state(), sk.spec_best_obj(), sk.spec_best_sol());
        assert(start == (seq![TS::spec_from(&p).spec_root()], D::spec_empty(), start.2, start.3));
        let ghost kept = |i: nat| best_after_layers::<P, TS, D>(&ts, w, start, i);
        let ghost polls = polls_of::<P::Obj, S>(first);
        let mut rounds: u64 = 0;
        loop
            invariant_except_break
                rounds <= MAX_ROUNDS,
                old(sk).inv() ==> sk.inv(),
                sk.spec_dual_bound() == old(sk).spec_dual_bound(),
                w == self.beam_width as nat,
                self.beam_width == old(self).beam_width,
                set.wf(),
                kept == |i: nat| best_after_layers::<P, TS, D>(&ts, w, start, i),
                polls == polls_of::<P::Obj, S>(first),
                reaches::<P, TS, D>(
                    &ts,
                    w,
                    start,
                    rounds as nat,
                    (beam@, set.state(), sk.spec_best_obj(), sk.spec_best_sol()),
                ),
                went_on(first, kept, rounds as nat, stop),
            ensures
                rounds <= MAX_ROUNDS,
                self.beam_width == old(self).beam_width,
                old(sk).inv() ==> sk.inv(),
                sk.spec_dual_bound() == old(sk).spec_dual_bound(),
                reaches::<P, TS, D>(
                    &ts,
                    w,
                    start,
                    rounds as nat,
                    (beam@, set.state(), sk.spec_best_obj(), sk.spec_best_sol()),
                ),
                (rounds == MAX_ROUNDS && polls(kept, rounds as nat, None)) || polls(
                    kept,
                    rounds as nat,
                    Some(true),
                ) || (beam@.len() == 0 && polls(kept, rounds as nat, Some(false))),
            decreases MAX_ROUNDS - rounds,
        {
            let ghost here = (beam@, set.state(), sk.spec_best_obj(), sk.spec_best_sol());
            proof {
                lemma_best_after_layers::<P, TS, D>(&ts, w, start, rounds as nat, here);
            }
            if rounds == MAX_ROUNDS {
                proof {
                    assert(went_on(first, kept, rounds as nat, stop));
                    assert(polls(kept, rounds as nat, None));
                }
                break ;
            }
            let primal = sk.best_obj();
            let ghost before = stop;
            let halt = stop.stop(primal, P::Obj::unbounded());
            if halt || beam.len() == 0 {
                proof {
                    assert(before.polled(kept(rounds as nat), P::Obj::spec_unbounded(), halt, &stop));
                    assert(answered(before, kept(rounds as nat), halt));
                    assert(went_on(first, kept, rounds as nat, before));
                    assert(polls(kept, rounds as nat, Some(halt)));
                }
                break ;
            }
            let next = Self::layer(&ts, &beam, &mut set, sk, self.beam_width);
            proof {
                let to = (next@, set.state(), sk.spec_best_obj(), sk.spec_best_sol());
                assert(before.polled(kept(rounds as nat), P::Obj::spec_unbounded(), false, &stop));
                lemma_went_on_extends(first, kept, rounds as nat, before, stop);
                assert(is_layer::<P, TS, D>(&ts, w, here, to));
                assert(reaches::<P, TS, D>(&ts, w, start, (rounds + 1) as nat, to));
            }
            beam = next;
            rounds = rounds + 1;
        }
        proof {
            let end = (beam@, set.state(), sk.spec_best_obj(), sk.spec_best_sol());
            let from = (seq![TS::spec_from(&p).spec_root()], D::spec_empty(), start.2, start.3);
            let kept_from = |i: nat|
                best_after_layers::<P, TS, D>(&TS::spec_from(&p), self.width() as nat, from, i);
            assert(kept =~= kept_from);
            assert(reaches::<P, TS, D>(
                &TS::spec_from(&p),
                self.width() as nat,
                from,
                rounds as nat,
                end,
            ));
        }
    }
}

} // verus!
