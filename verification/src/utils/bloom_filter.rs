use vstd::prelude::*;
use crate::utils::bitarray::BitArray;
use crate::utils::fingerprint::{hash_one, seeded_hash, Fingerprint};
use crate::utils::set::DuplicateSet;
use std::marker::PhantomData;

verus! {

/// The natural logarithm of 2 to eighteen decimal places, as a fraction:
/// this over `LN2_DEN`.
pub const LN2_NUM: u128 = 693_147_180_559_945_309;

/// `LN2_NUM` over this is the natural logarithm of 2.
pub const LN2_DEN: u128 = 1_000_000_000_000_000_000;

/// Seed of the first hash of an item.
pub const SEED_A: u64 = 4;

/// Seed of the second hash of an item.
pub const SEED_B: u64 = 42;

/// The number of bits probed per item in a filter of `m` bits made for `n`
/// items: `m / n` times the natural logarithm of 2, rounded to the nearest
/// whole number, halves upwards. None for a filter made for no item.
pub open spec fn hash_count(n: int, m: int) -> int {
    if n == 0 {
        0
    } else {
        (2 * m * LN2_NUM + n * LN2_DEN) / (2 * n * LN2_DEN)
    }
}

/// The `i`-th probe of an item whose two hashes are `h0` and `h1`: the hashes
/// themselves at first, then `h0` plus `i`, times `h1`, wrapping.
pub open spec fn probe(h0: u64, h1: u64, i: int) -> u64 {
    if i == 0 {
        h0
    } else if i == 1 {
        h1
    } else {
        h0.wrapping_add(i as u64).wrapping_mul(h1)
    }
}

/// The bit that the `i`-th probe falls on in a filter of `m` bits.
pub open spec fn slot(h0: u64, h1: u64, i: int, m: int) -> int {
    probe(h0, h1, i) as int % m
}

/// All the `k` bits that an item with the hashes `h0` and `h1` falls on are
/// set.
pub open spec fn holds(bits: Seq<bool>, k: int, h0: u64, h1: u64) -> bool {
    forall|i: int| 0 <= i < k ==> bits[#[trigger] slot(h0, h1, i, bits.len() as int)]
}

/// The bits after the `k` bits of an item with the hashes `h0` and `h1` were
/// set.
pub open spec fn marked(bits: Seq<bool>, k: int, h0: u64, h1: u64) -> Seq<bool> {
    Seq::new(
        bits.len(),
        |j: int| bits[j] || exists|i: int| 0 <= i < k && #[trigger] slot(h0, h1, i, bits.len() as int) == j,
    )
}

/// No false negatives: once an item was marked, its bits are all set.
pub proof fn lemma_marked_holds(bits: Seq<bool>, k: int, h0: u64, h1: u64)
    requires
        bits.len() > 0,
    ensures
        holds(marked(bits, k, h0, h1), k, h0, h1),
{
    let m = bits.len() as int;
    assert forall|i: int| 0 <= i < k implies marked(bits, k, h0, h1)[#[trigger] slot(
        h0,
        h1,
        i,
        m,
    )] by {
        assert(0 <= slot(h0, h1, i, m) < m);
    }
}

/// Marking never clears a bit: what the filter held before, it holds after.
pub proof fn lemma_marked_keeps(bits: Seq<bool>, k: int, h0: u64, h1: u64, k2: int, g0: u64, g1: u64)
    requires
        bits.len() > 0,
        holds(bits, k2, g0, g1),
    ensures
        holds(marked(bits, k, h0, h1), k2, g0, g1),
{
    let m = bits.len() as int;
    assert forall|i: int| 0 <= i < k2 implies marked(bits, k, h0, h1)[#[trigger] slot(
        g0,
        g1,
        i,
        m,
    )] by {
        assert(0 <= slot(g0, g1, i, m) < m);
        assert(bits[slot(g0, g1, i, m)]);
    }
}

/// A Bloom filter of `M` bits made for `N` items: a set with approximate
/// membership, which may take an item for one it holds but never misses one
/// that it does hold.
pub struct BloomFilter<T: Fingerprint, const N: usize, const M: usize> {
    bits: BitArray<M>,
    _t: PhantomData<T>,
    k_num: usize,
}

impl<T: Fingerprint, const N: usize, const M: usize> View for BloomFilter<T, N, M> {
    type V = Seq<bool>;

    /// The bits of the filter.
    closed spec fn view(&self) -> Seq<bool> {
        self.bits@
    }
}

impl<T: Fingerprint, const N: usize, const M: usize> BloomFilter<T, N, M> {
    /// The filter has its `M` bits and probes `hash_count(N, M)` of them per
    /// item.
    pub closed spec fn wf(&self) -> bool {
        &&& self.bits.wf()
        &&& self.bits@.len() == M
        &&& self.k_num == hash_count(N as int, M as int)
        &&& self.k_num <= M
    }

    /// Whether an item's bits are all set in the bits `bits`.
    pub open spec fn spec_holds(bits: Seq<bool>, item: &T) -> bool {
        holds(
            bits,
            hash_count(N as int, M as int),
            seeded_hash(SEED_A, item.spec_word()),
            seeded_hash(SEED_B, item.spec_word()),
        )
    }

    /// The bits `bits` with an item's bits set.
    pub open spec fn spec_marked(bits: Seq<bool>, item: &T) -> Seq<bool> {
        marked(
            bits,
            hash_count(N as int, M as int),
            seeded_hash(SEED_A, item.spec_word()),
            seeded_hash(SEED_B, item.spec_word()),
        )
    }

    /// The number of bits probed per item.
    fn compute_hash_count() -> (k: usize)
        ensures
            k == hash_count(N as int, M as int),
            k <= M,
    {
        if N == 0 {
            assert(hash_count(N as int, M as int) == 0);
            0
        } else {
            let n: u128 = N as u128;
            let m: u128 = M as u128;
            assert(2 * m * LN2_NUM <= 2 * 0xffff_ffff_ffff_ffff * LN2_NUM) by (nonlinear_arith)
                requires
                    m <= 0xffff_ffff_ffff_ffff,
            ;
            assert(n * LN2_DEN <= 0xffff_ffff_ffff_ffff * LN2_DEN) by (nonlinear_arith)
                requires
                    n <= 0xffff_ffff_ffff_ffff,
            ;
            let num: u128 = 2 * m * LN2_NUM + n * LN2_DEN;
            let den: u128 = 2 * n * LN2_DEN;
            let k: u128 = num / den;
            assert(k <= m) by (nonlinear_arith)
                requires
                    k == num / den,
                    num == 2 * m * LN2_NUM + n * LN2_DEN,
                    den == 2 * n * LN2_DEN,
                    n >= 1,
                    LN2_NUM == 693_147_180_559_945_309,
                    LN2_DEN == 1_000_000_000_000_000_000,
            {
                assert(2 * m * LN2_NUM <= 2 * m * LN2_DEN);
                assert(2 * m * LN2_DEN <= 2 * m * LN2_DEN * n);
                assert(num < den * (m + 1)) by {
                    assert(den * (m + 1) == 2 * n * LN2_DEN * m + 2 * n * LN2_DEN);
                }
                assert(num / den < m + 1) by {
                    if num / den >= m + 1 {
                        assert(den * (num / den) >= den * (m + 1));
                        assert(den * (num / den) <= num);
                    }
                }
            }
            k as usize
        }
    }

    /// An empty filter.
    pub fn new() -> (r: Self)
        ensures
            r.wf(),
            r@ == Seq::new(M as nat, |i: int| false),
    {
        let bits = BitArray::<M>::new();
        let k_num = Self::compute_hash_count();
        BloomFilter { bits, _t: PhantomData, k_num }
    }

    /// The bit that probe `i` of an item with the hashes `h0` and `h1` falls
    /// on.
    fn index(h0: u64, h1: u64, i: usize) -> (j: usize)
        requires
            M > 0,
        ensures
            j == slot(h0, h1, i as int, M as int),
            j < M,
    {
        let h: u64 = if i == 0 {
            h0
        } else if i == 1 {
            h1
        } else {
            h0.wrapping_add(i as u64).wrapping_mul(h1)
        };
        (h % (M as u64)) as usize
    }

    /// Sets the bits of `item` and says whether all of them were set before.
    pub fn insert(&mut self, item: &T) -> (present: bool)
        requires
            old(self).wf(),
        ensures
            final(self).wf(),
            present == Self::spec_holds(old(self)@, item),
            final(self)@ == Self::spec_marked(old(self)@, item),
    {
        let h0 = hash_one(SEED_A, item);
        let h1 = hash_one(SEED_B, item);
        let ghost before = self.bits@;
        let ghost k = self.k_num as int;
        let mut present = true;
        let mut i: usize = 0;
        while i < self.k_num
            invariant
                self.wf(),
                k == self.k_num,
                i <= self.k_num,
                before.len() == M,
                present == holds(before, i as int, h0, h1),
                self.bits@ == marked(before, i as int, h0, h1),
            decreases self.k_num - i,
        {
            let j = Self::index(h0, h1, i);
            let was = self.bits.get(j);
            self.bits.set(j);
            proof {
                let m = M as int;
                assert(was == (before[j as int] || exists|a: int|
                    0 <= a < i && #[trigger] slot(h0, h1, a, m) == j));
                assert(slot(h0, h1, i as int, m) == j);
                if present && was && !before[j as int] {
                    // An earlier probe of the item set the bit, so the bit was
                    // clear when that probe read it.
                    let a = choose|a: int| 0 <= a < i && #[trigger] slot(h0, h1, a, m) == j;
                    assert(before[slot(h0, h1, a, m)]);
                }
                assert((present && was) == holds(before, i + 1, h0, h1)) by {
                    if present && was {
                        assert forall|a: int| 0 <= a < i + 1 implies before[#[trigger] slot(
                            h0,
                            h1,
                            a,
                            m,
                        )] by {
                            if a == i {
                                assert(before[j as int]);
                            }
                        }
                    } else if present {
                        assert(!before[slot(h0, h1, i as int, m)]);
                    } else {
                        let a = choose|a: int| 0 <= a < i && !before[#[trigger] slot(h0, h1, a, m)];
                        assert(!before[slot(h0, h1, a, m)]);
                    }
                }
                assert(self.bits@ =~= marked(before, i + 1, h0, h1)) by {
                    assert forall|x: int| 0 <= x < m implies self.bits@[x] == marked(
                        before,
                        i + 1,
                        h0,
                        h1,
                    )[x] by {
                        if exists|a: int| 0 <= a < i + 1 && #[trigger] slot(h0, h1, a, m) == x {
                            let a = choose|a: int| 0 <= a < i + 1 && #[trigger] slot(h0, h1, a, m) == x;
                            if a < i {
                                assert(marked(before, i as int, h0, h1)[x]);
                            }
                        }
                        if x == j {
                            assert(slot(h0, h1, i as int, m) == x);
                        }
                    }
                }
            }
            present = present && was;
            i += 1;
        }
        present
    }

    /// Whether the bits of `item` are all set.
    pub fn contains(&self, item: &T) -> (present: bool)
        requires
            self.wf(),
        ensures
            present == Self::spec_holds(self@, item),
    {
        let h0 = hash_one(SEED_A, item);
        let h1 = hash_one(SEED_B, item);
        let mut i: usize = 0;
        while i < self.k_num
            invariant
                self.wf(),
                i <= self.k_num,
                h0 == seeded_hash(SEED_A, item.spec_word()),
                h1 == seeded_hash(SEED_B, item.spec_word()),
                holds(self.bits@, i as int, h0, h1),
            decreases self.k_num - i,
        {
            let j = Self::index(h0, h1, i);
            if !self.bits.get(j) {
                assert(!self@[slot(h0, h1, i as int, self@.len() as int)]);
                return false;
            }
            i += 1;
        }
        true
    }
}

impl<T: Fingerprint, const N: usize, const M: usize> BloomFilter<T, N, M> {
    /// The number of bits probed per item.
    pub fn probes(&self) -> (k: usize)
        requires
            self.wf(),
        ensures
            k == hash_count(N as int, M as int),
    {
        self.k_num
    }

    /// No false negatives: a filter holds an item once the item was inserted.
    pub proof fn lemma_inserted_is_held(bits: Seq<bool>, item: &T)
        requires
            bits.len() == M,
            M > 0,
        ensures
            Self::spec_holds(Self::spec_marked(bits, item), item),
    {
        lemma_marked_holds(
            bits,
            hash_count(N as int, M as int),
            seeded_hash(SEED_A, item.spec_word()),
            seeded_hash(SEED_B, item.spec_word()),
        );
    }

    /// An insertion never makes a filter forget: what it held before the
    /// insertion of `item`, it holds after.
    pub proof fn lemma_insert_keeps(bits: Seq<bool>, item: &T, other: &T)
        requires
            bits.len() == M,
            M > 0,
            Self::spec_holds(bits, other),
        ensures
            Self::spec_holds(Self::spec_marked(bits, item), other),
    {
        lemma_marked_keeps(
            bits,
            hash_count(N as int, M as int),
            seeded_hash(SEED_A, item.spec_word()),
            seeded_hash(SEED_B, item.spec_word()),
            hash_count(N as int, M as int),
            seeded_hash(SEED_A, other.spec_word()),
            seeded_hash(SEED_B, other.spec_word()),
        );
    }
}

impl<T: Fingerprint, const N: usize, const M: usize> Clone for BloomFilter<T, N, M> {
    fn clone(&self) -> (r: Self)
        ensures
            r@ == self@,
            self.wf() ==> r.wf(),
    {
        BloomFilter { bits: self.bits.clone(), _t: PhantomData, k_num: self.k_num }
    }
}

impl<T: Fingerprint, const N: usize, const M: usize> Default for BloomFilter<T, N, M> {
    /// An empty filter.
    fn default() -> (r: Self)
        ensures
            r.wf(),
            r@ == Seq::new(M as nat, |i: int| false),
    {
        Self::new()
    }
}

impl<T: Fingerprint, const N: usize, const M: usize> DuplicateSet<T> for BloomFilter<T, N, M> {
    type State = Seq<bool>;

    open spec fn state(&self) -> Seq<bool> {
        self@
    }

    open spec fn wf(&self) -> bool {
        BloomFilter::wf(self)
    }

    open spec fn spec_empty() -> Seq<bool> {
        Seq::new(M as nat, |i: int| false)
    }

    open spec fn spec_contains(state: Seq<bool>, item: &T) -> bool {
        Self::spec_holds(state, item)
    }

    open spec fn spec_insert(state: Seq<bool>, item: &T) -> Seq<bool> {
        Self::spec_marked(state, item)
    }

    fn empty() -> (s: Self) {
        BloomFilter::new()
    }

    fn insert(&mut self, item: &T) -> (present: bool) {
        BloomFilter::insert(self, item)
    }

    fn contains(&self, item: &T) -> (present: bool) {
        BloomFilter::contains(self, item)
    }
}

} // verus!
