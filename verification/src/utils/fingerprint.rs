use vstd::prelude::*;
use crate::base::rng::{mix, mix_word, GOLDEN_GAMMA};

verus! {

/// An item that a 64-bit word stands for when it is hashed. Items that are
/// to count as equal have the same word.
///
/// The spec functions are what the contracts of the methods speak of; an
/// implementation gives them their bodies.
pub trait Fingerprint {
    /// The word that stands for the item.
    open spec fn spec_word(&self) -> u64 {
        arbitrary()
    }

    fn word(&self) -> (w: u64)
        ensures
            w == self.spec_word(),
    ;
}

impl Fingerprint for u64 {
    open spec fn spec_word(&self) -> u64 {
        *self
    }

    fn word(&self) -> (w: u64) {
        *self
    }
}

impl Fingerprint for u32 {
    open spec fn spec_word(&self) -> u64 {
        *self as u64
    }

    fn word(&self) -> (w: u64) {
        *self as u64
    }
}

impl Fingerprint for usize {
    open spec fn spec_word(&self) -> u64 {
        *self as u64
    }

    fn word(&self) -> (w: u64) {
        *self as u64
    }
}

/// The hash of a word under a seed: the seed is spread over the 64 bits by a
/// multiplication, the word is added, and the sum is scrambled by the
/// splitmix64 finaliser.
pub open spec fn seeded_hash(seed: u64, word: u64) -> u64 {
    mix(seed.wrapping_mul(GOLDEN_GAMMA).wrapping_add(word))
}

/// Hashes an item under a seed.
pub fn hash_one<T: Fingerprint>(seed: u64, item: &T) -> (h: u64)
    ensures
        h == seeded_hash(seed, item.spec_word()),
{
    mix_word(seed.wrapping_mul(GOLDEN_GAMMA).wrapping_add(item.word()))
}

} // verus!
