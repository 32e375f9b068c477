use vstd::prelude::*;
use vstd::set_lib::{lemma_int_range, lemma_subset_equality, set_int_range};
use std::cmp::Ordering;
use crate::base::Objective;

verus! {

/// `out` holds the items of `src` in ascending order of their guides, items
/// of equal guide in the order they have in `src`; `perm` gives for each
/// place of `out` the place in `src` that its item comes from.
pub open spec fn is_stable_order<G: Objective, C>(
    src: Seq<(G, usize, C)>,
    out: Seq<(G, usize, C)>,
    perm: Seq<int>,
) -> bool {
    &&& out.len() == src.len()
    &&& perm.len() == src.len()
    &&& forall|i: int|
        0 <= i < out.len() ==> 0 <= #[trigger] perm[i] < src.len() && out[i] == src[perm[i]]
    &&& forall|i: int, j: int| 0 <= i < j < out.len() ==> #[trigger] perm[i] != #[trigger] perm[j]
    &&& forall|i: int, j: int|
        0 <= i < j < out.len() ==> (#[trigger] out[i]).0.key() <= (#[trigger] out[j]).0.key()
    &&& forall|i: int, j: int|
        0 <= i < j < out.len() && out[i].0.key() == out[j].0.key() ==> #[trigger] perm[i]
            < #[trigger] perm[j]
}

/// `out` is `src` sorted by guide, stably.
pub open spec fn is_stable_sort<G: Objective, C>(
    src: Seq<(G, usize, C)>,
    out: Seq<(G, usize, C)>,
) -> bool {
    exists|perm: Seq<int>| is_stable_order(src, out, perm)
}

/// In a stable order every place of the source occurs among the places that
/// the output is taken from.
pub proof fn lemma_stable_order_onto<G: Objective, C>(
    src: Seq<(G, usize, C)>,
    out: Seq<(G, usize, C)>,
    perm: Seq<int>,
    c: int,
)
    requires
        is_stable_order(src, out, perm),
        0 <= c < src.len(),
    ensures
        exists|i: int| 0 <= i < perm.len() && perm[i] == c,
{
    let n = src.len() as int;
    assert(perm.no_duplicates()) by {
        assert forall|i: int, j: int|
            0 <= i < perm.len() && 0 <= j < perm.len() && i != j implies perm[i] != perm[j] by {
            if i < j {
                assert(perm[i] != perm[j]);
            } else {
                assert(perm[j] != perm[i]);
            }
        }
    }
    perm.unique_seq_to_set();
    lemma_int_range(0, n);
    let places = set_int_range(0, n);
    assert(perm.to_set().subset_of(places)) by {
        assert forall|x: int| perm.to_set().contains(x) implies places.contains(x) by {
            let i = choose|i: int| 0 <= i < perm.len() && perm[i] == x;
            assert(0 <= perm[i] < n);
        }
    }
    vstd::set_lib::lemma_set_subset_finite(places, perm.to_set());
    lemma_subset_equality(perm.to_set(), places);
    assert(places.contains(c));
    assert(perm.to_set().contains(c));
    assert(perm.contains(c));
}

/// Two stable orders of one source take each place from the same place of the
/// source.
pub proof fn lemma_stable_orders_agree<G: Objective, C>(
    src: Seq<(G, usize, C)>,
    out1: Seq<(G, usize, C)>,
    perm1: Seq<int>,
    out2: Seq<(G, usize, C)>,
    perm2: Seq<int>,
    i: int,
)
    requires
        is_stable_order(src, out1, perm1),
        is_stable_order(src, out2, perm2),
        0 <= i < src.len(),
    ensures
        perm1[i] == perm2[i],
    decreases i,
{
    assert forall|k: int| 0 <= k < i implies perm1[k] == perm2[k] by {
        lemma_stable_orders_agree(src, out1, perm1, out2, perm2, k);
    }
    let a = perm1[i];
    let b = perm2[i];
    if a != b {
        // `a` comes later in the second order and `b` later in the first
        lemma_stable_order_onto(src, out2, perm2, a);
        let j = choose|j: int| 0 <= j < perm2.len() && perm2[j] == a;
        if j < i {
            assert(perm1[j] == perm2[j]);
            assert(perm1[j] != perm1[i]);
        }
        assert(j > i);
        lemma_stable_order_onto(src, out1, perm1, b);
        let h = choose|h: int| 0 <= h < perm1.len() && perm1[h] == b;
        if h < i {
            assert(perm1[h] == perm2[h]);
            assert(perm2[h] != perm2[i]);
        }
        assert(h > i);
        assert(out2[i] == src[b] && out2[j] == src[a]);
        assert(out1[i] == src[a] && out1[h] == src[b]);
        assert(out2[i].0.key() <= out2[j].0.key());
        assert(out1[i].0.key() <= out1[h].0.key());
        assert(perm2[i] < perm2[j]);
        assert(perm1[i] < perm1[h]);
    }
}

/// A source has one stable sort.
pub proof fn lemma_stable_sort_unique<G: Objective, C>(
    src: Seq<(G, usize, C)>,
    out1: Seq<(G, usize, C)>,
    out2: Seq<(G, usize, C)>,
)
    requires
        is_stable_sort(src, out1),
        is_stable_sort(src, out2),
    ensures
        out1 == out2,
{
    let perm1 = choose|perm: Seq<int>| is_stable_order(src, out1, perm);
    let perm2 = choose|perm: Seq<int>| is_stable_order(src, out2, perm);
    assert forall|i: int| 0 <= i < src.len() implies out1[i] == out2[i] by {
        lemma_stable_orders_agree(src, out1, perm1, out2, perm2, i);
        assert(out1[i] == src[perm1[i]]);
        assert(out2[i] == src[perm2[i]]);
    }
    assert(out1 =~= out2);
}

/// The order of two guides: that of their keys.
pub fn guide_order<G: Objective>(a: &G, b: &G) -> (o: Ordering)
    ensures
        o == if a.key() < b.key() {
            Ordering::Less
        } else if a.key() > b.key() {
            Ordering::Greater
        } else {
            Ordering::Equal
        },
{
    if a.less(b) {
        Ordering::Less
    } else if b.less(a) {
        Ordering::Greater
    } else {
        Ordering::Equal
    }
}

/// Sorts candidates by guide with `sort_by` of the standard library's slices,
/// comparing by `guide_order`. Trusted: the standard library documents that
/// the slice then holds the same items in ascending order and that the sort is
/// stable, which is what `is_stable_sort` states.
#[verifier::external_body]
pub(crate) fn sort_by_guide<G: Objective, C>(cands: &mut Vec<(G, usize, C)>)
    ensures
        is_stable_sort(old(cands)@, final(cands)@),
{
    cands.sort_by(|a, b| guide_order(&a.0, &b.0));
}

} // verus!
