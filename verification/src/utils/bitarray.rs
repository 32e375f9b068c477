use vstd::prelude::*;
use crate::utils::text::push_char;

verus! {

/// Bit `b` of the word `w`.
pub open spec fn bit(w: u64, b: u64) -> bool {
    (w >> b) & 1 == 1
}

/// The number of 64-bit words that hold `n` bits.
pub open spec fn words_for(n: int) -> int {
    (n + 63) / 64
}

/// Bit `i` of a sequence of words, counting from the lowest bit of the first
/// word.
pub open spec fn bit_at(words: Seq<u64>, i: int) -> bool {
    bit(words[i / 64], (i % 64) as u64)
}

/// An array of `N` bits, all clear at first, packed in 64-bit words.
#[derive(PartialEq, Eq, Hash)]
pub struct BitArray<const N: usize> {
    data: Vec<u64>,
}

impl<const N: usize> View for BitArray<N> {
    type V = Seq<bool>;

    /// The bits, in order.
    closed spec fn view(&self) -> Seq<bool> {
        Seq::new(N as nat, |i: int| bit_at(self.data@, i))
    }
}

impl<const N: usize> BitArray<N> {
    /// The words are as many as `N` bits need, and the bits of the last word
    /// that lie beyond `N` are clear.
    pub closed spec fn wf(&self) -> bool {
        &&& self.data@.len() == words_for(N as int)
        &&& forall|i: int| N <= i < 64 * self.data@.len() ==> !bit_at(self.data@, i)
    }

    /// The view has `N` bits.
    pub proof fn lemma_len(&self)
        ensures
            self@.len() == N,
    {
    }

    /// An array with every bit clear.
    pub fn new() -> (r: Self)
        ensures
            r.wf(),
            r@ == Seq::new(N as nat, |i: int| false),
    {
        let words: usize = N / 64 + if N % 64 != 0 {
            1usize
        } else {
            0usize
        };
        let mut data: Vec<u64> = Vec::new();
        let mut k: usize = 0;
        while k < words
            invariant
                k <= words,
                data@.len() == k,
                forall|j: int| 0 <= j < k ==> data@[j] == 0u64,
            decreases words - k,
        {
            data.push(0u64);
            k += 1;
        }
        assert forall|i: int| 0 <= i < 64 * data@.len() implies !bit_at(data@, i) by {
            let b = (i % 64) as u64;
            assert(!bit(0u64, b)) by (bit_vector);
        }
        let r = BitArray { data };
        assert(r@ =~= Seq::new(N as nat, |i: int| false));
        r
    }

    /// Sets bit `i`.
    pub fn set(&mut self, i: usize)
        requires
            old(self).wf(),
            i < N,
        ensures
            final(self).wf(),
            final(self)@ == old(self)@.update(i as int, true),
    {
        let block: usize = i / 64;
        let b: u64 = (i % 64) as u64;
        let w: u64 = self.data[block];
        let v: u64 = w | (1u64 << b);
        assert(forall|c: u64| c < 64 ==> bit(v, c) == (c == b || bit(w, c))) by (bit_vector)
            requires
                v == w | (1u64 << b),
                b < 64,
        ;
        let ghost before = self.data@;
        self.data.set(block, v);
        proof {
            assert forall|j: int| 0 <= j < 64 * before.len() implies bit_at(self.data@, j) == (j
                == i || bit_at(before, j)) by {
                let c = (j % 64) as u64;
                if j / 64 == block as int {
                    assert(bit(v, c) == (c == b || bit(w, c)));
                }
            }
            assert(self@ =~= old(self)@.update(i as int, true));
            assert forall|j: int| N <= j < 64 * self.data@.len() implies !bit_at(self.data@, j) by {
                assert(bit_at(self.data@, j) == (j == i || bit_at(before, j)));
                assert(!bit_at(before, j));
            }
        }
    }

    /// Whether bit `i` is set.
    pub fn get(&self, i: usize) -> (r: bool)
        requires
            self.wf(),
            i < N,
        ensures
            r == self@[i as int],
    {
        let block: usize = i / 64;
        let b: u64 = (i % 64) as u64;
        let w: u64 = self.data[block];
        assert(((w & (1u64 << b)) != 0) == bit(w, b)) by (bit_vector)
            requires
                b < 64,
        ;
        (w & (1u64 << b)) != 0
    }

    /// The bits as a string of `0` and `1`, bit 0 first.
    pub fn to_bit_string(&self) -> (s: String)
        requires
            self.wf(),
        ensures
            s@ == Seq::new(
                N as nat,
                |i: int|
                    if self@[i] {
                        '1'
                    } else {
                        '0'
                    },
            ),
    {
        let mut s = String::new();
        let mut i: usize = 0;
        while i < N
            invariant
                self.wf(),
                i <= N,
                s@ == Seq::new(
                    i as nat,
                    |j: int|
                        if self@[j] {
                            '1'
                        } else {
                            '0'
                        },
                ),
            decreases N - i,
        {
            let ghost before = s@;
            if self.get(i) {
                push_char(&mut s, '1');
            } else {
                push_char(&mut s, '0');
            }
            i += 1;
            assert(s@ =~= Seq::new(
                i as nat,
                |j: int|
                    if self@[j] {
                        '1'
                    } else {
                        '0'
                    },
            ));
        }
        s
    }

    /// The bits set in `self` or in `rhs`.
    pub fn bitor(self, rhs: Self) -> (r: Self)
        requires
            self.wf(),
            rhs.wf(),
        ensures
            r.wf(),
            r@ == Seq::new(N as nat, |i: int| self@[i] || rhs@[i]),
    {
        let mut data: Vec<u64> = Vec::new();
        let mut k: usize = 0;
        while k < self.data.len()
            invariant
                k <= self.data@.len(),
                self.data@.len() == rhs.data@.len(),
                data@.len() == k,
                forall|j: int| 0 <= j < k ==> data@[j] == self.data@[j] | rhs.data@[j],
            decreases self.data@.len() - k,
        {
            data.push(self.data[k] | rhs.data[k]);
            k += 1;
        }
        assert forall|i: int| 0 <= i < 64 * data@.len() implies bit_at(data@, i) == (bit_at(
            self.data@,
            i,
        ) || bit_at(rhs.data@, i)) by {
            let c = (i % 64) as u64;
            let x = self.data@[i / 64];
            let y = rhs.data@[i / 64];
            assert(bit(x | y, c) == (bit(x, c) || bit(y, c))) by (bit_vector);
        }
        let r = BitArray { data };
        assert(r@ =~= Seq::new(N as nat, |i: int| self@[i] || rhs@[i]));
        r
    }

    /// The bits set in `self` and in `rhs`.
    pub fn bitand(self, rhs: Self) -> (r: Self)
        requires
            self.wf(),
            rhs.wf(),
        ensures
            r.wf(),
            r@ == Seq::new(N as nat, |i: int| self@[i] && rhs@[i]),
    {
        let mut data: Vec<u64> = Vec::new();
        let mut k: usize = 0;
        while k < self.data.len()
            invariant
                k <= self.data@.len(),
                self.data@.len() == rhs.data@.len(),
                data@.len() == k,
                forall|j: int| 0 <= j < k ==> data@[j] == self.data@[j] & rhs.data@[j],
            decreases self.data@.len() - k,
        {
            data.push(self.data[k] & rhs.data[k]);
            k += 1;
        }
        assert forall|i: int| 0 <= i < 64 * data@.len() implies bit_at(data@, i) == (bit_at(
            self.data@,
            i,
        ) && bit_at(rhs.data@, i)) by {
            let c = (i % 64) as u64;
            let x = self.data@[i / 64];
            let y = rhs.data@[i / 64];
            assert(bit(x & y, c) == (bit(x, c) && bit(y, c))) by (bit_vector);
        }
        let r = BitArray { data };
        assert(r@ =~= Seq::new(N as nat, |i: int| self@[i] && rhs@[i]));
        r
    }

    /// The bits set in exactly one of `self` and `rhs`.
    pub fn bitxor(self, rhs: Self) -> (r: Self)
        requires
            self.wf(),
            rhs.wf(),
        ensures
            r.wf(),
            r@ == Seq::new(N as nat, |i: int| self@[i] != rhs@[i]),
    {
        let mut data: Vec<u64> = Vec::new();
        let mut k: usize = 0;
        while k < self.data.len()
            invariant
                k <= self.data@.len(),
                self.data@.len() == rhs.data@.len(),
                data@.len() == k,
                forall|j: int| 0 <= j < k ==> data@[j] == self.data@[j] ^ rhs.data@[j],
            decreases self.data@.len() - k,
        {
            data.push(self.data[k] ^ rhs.data[k]);
            k += 1;
        }
        assert forall|i: int| 0 <= i < 64 * data@.len() implies bit_at(data@, i) == (bit_at(
            self.data@,
            i,
        ) != bit_at(rhs.data@, i)) by {
            let c = (i % 64) as u64;
            let x = self.data@[i / 64];
            let y = rhs.data@[i / 64];
            assert(bit(x ^ y, c) == (bit(x, c) != bit(y, c))) by (bit_vector);
        }
        let r = BitArray { data };
        assert(r@ =~= Seq::new(N as nat, |i: int| self@[i] != rhs@[i]));
        r
    }

    /// The bits clear in `self`.
    pub fn not(self) -> (r: Self)
        requires
            self.wf(),
        ensures
            r.wf(),
            r@ == Seq::new(N as nat, |i: int| !self@[i]),
    {
        let len = self.data.len();
        let mut data: Vec<u64> = Vec::new();
        let mut k: usize = 0;
        while k < len
            invariant
                k <= len,
                len == self.data@.len(),
                data@.len() == k,
                forall|j: int| 0 <= j < k ==> data@[j] == !self.data@[j],
            decreases len - k,
        {
            data.push(!self.data[k]);
            k += 1;
        }
        let ghost flipped = data@;
        assert forall|i: int| 0 <= i < 64 * len implies bit_at(flipped, i) == !bit_at(
            self.data@,
            i,
        ) by {
            let c = (i % 64) as u64;
            let x = self.data@[i / 64];
            assert(bit(!x, c) == !bit(x, c)) by (bit_vector)
                requires
                    c < 64,
            ;
        }
        // Clear the bits beyond N.
        let used: usize = N % 64;
        if used > 0 {
            let keep: u64 = used as u64;
            assert((1u64 << keep) >= 1) by (bit_vector)
                requires
                    keep < 64,
            ;
            let mask: u64 = (1u64 << keep) - 1;
            let last: u64 = data[len - 1];
            let cut: u64 = last & mask;
            assert(forall|c: u64| c < 64 ==> bit(cut, c) == (c < keep && bit(last, c)))
                by (bit_vector)
                requires
                    cut == last & (((1u64 << keep) - 1) as u64),
                    0 < keep < 64,
            ;
            data.set(len - 1, cut);
            assert forall|i: int| 0 <= i < 64 * len implies bit_at(data@, i) == (i < N && bit_at(
                flipped,
                i,
            )) by {
                let c = (i % 64) as u64;
                if i / 64 == len - 1 {
                    assert(bit(cut, c) == (c < keep && bit(last, c)));
                }
            }
        }
        assert forall|i: int| 0 <= i < 64 * len implies bit_at(data@, i) == (i < N && !bit_at(
            self.data@,
            i,
        )) by {
            assert(bit_at(flipped, i) == !bit_at(self.data@, i));
            if used == 0 {
                assert(data@ == flipped);
                assert(64 * len == N);
            }
        }
        let r = BitArray { data };
        assert(r@ =~= Seq::new(N as nat, |i: int| !self@[i]));
        r
    }
}

impl<const N: usize> Clone for BitArray<N> {
    fn clone(&self) -> (r: Self)
        ensures
            r@ == self@,
            self.wf() ==> r.wf(),
    {
        let mut data: Vec<u64> = Vec::new();
        let mut k: usize = 0;
        while k < self.data.len()
            invariant
                k <= self.data@.len(),
                data@ == self.data@.take(k as int),
            decreases self.data@.len() - k,
        {
            data.push(self.data[k]);
            k += 1;
        }
        assert(data@ == self.data@);
        BitArray { data }
    }
}

impl<const N: usize> Default for BitArray<N> {
    /// An array with every bit clear.
    fn default() -> (r: Self)
        ensures
            r.wf(),
            r@ == Seq::new(N as nat, |i: int| false),
    {
        Self::new()
    }
}

} // verus!
