use vstd::prelude::*;

verus! {

/// A source of pseudo-random 64-bit words.
///
/// A generator is a deterministic state machine: the word that a draw returns
/// and the state it leaves behind are functions of the state before the draw.
///
/// The spec functions are what the contracts of the methods speak of; an
/// implementation gives them their bodies.
pub trait Rng: Clone {
    /// The word that the next draw returns.
    open spec fn peek(&self) -> u64 {
        arbitrary()
    }

    /// The generator after one draw.
    open spec fn advance(&self) -> Self {
        arbitrary()
    }

    /// Draws the next word.
    fn next_u64(&mut self) -> (r: u64)
        ensures
            r == old(self).peek(),
            *final(self) == old(self).advance(),
    ;
}

/// The generator after `n` draws.
pub open spec fn after<R: Rng>(g: R, n: nat) -> R
    decreases n,
{
    if n == 0 {
        g
    } else {
        after(g.advance(), (n - 1) as nat)
    }
}

/// The first `n` words that a generator yields.
pub open spec fn stream<R: Rng>(g: R, n: nat) -> Seq<u64>
    decreases n,
{
    if n == 0 {
        Seq::empty()
    } else {
        seq![g.peek()] + stream(g.advance(), (n - 1) as nat)
    }
}

/// Increment of the splitmix64 state between two draws.
pub const GOLDEN_GAMMA: u64 = 0x9e3779b97f4a7c15;

/// First multiplier of the splitmix64 finaliser.
pub const MIX_A: u64 = 0xbf58476d1ce4e5b9;

/// Second multiplier of the splitmix64 finaliser.
pub const MIX_B: u64 = 0x94d049bb133111eb;

/// The splitmix64 finaliser: two xor-shift-multiply rounds and a last
/// xor-shift by 31.
pub open spec fn mix(z: u64) -> u64 {
    let a = (z ^ (z >> 30)).wrapping_mul(MIX_A);
    let b = (a ^ (a >> 27)).wrapping_mul(MIX_B);
    b ^ (b >> 31)
}

/// Computes the splitmix64 finaliser.
pub fn mix_word(z: u64) -> (r: u64)
    ensures
        r == mix(z),
{
    let a: u64 = (z ^ (z >> 30)).wrapping_mul(MIX_A);
    let b: u64 = (a ^ (a >> 27)).wrapping_mul(MIX_B);
    b ^ (b >> 31)
}

/// The splitmix64 generator; its state is a single 64-bit seed.
#[derive(Clone, Copy)]
pub struct Splitmix64(pub u64);

impl Splitmix64 {
    /// A generator whose state is `seed`.
    pub fn from_u64(seed: u64) -> (r: Self)
        ensures
            r == Splitmix64(seed),
    {
        Splitmix64(seed)
    }
}

impl Rng for Splitmix64 {
    open spec fn peek(&self) -> u64 {
        mix(self.0.wrapping_add(GOLDEN_GAMMA))
    }

    open spec fn advance(&self) -> Self {
        Splitmix64(self.0.wrapping_add(GOLDEN_GAMMA))
    }

    fn next_u64(&mut self) -> (r: u64) {
        let z: u64 = self.0.wrapping_add(GOLDEN_GAMMA);
        self.0 = z;
        mix_word(z)
    }
}

/// Two splitmix64 generators that hold the same seed yield the same words and
/// reach the same state, however many are drawn.
pub proof fn lemma_equal_seeds_equal_streams(a: Splitmix64, b: Splitmix64, n: nat)
    requires
        a.0 == b.0,
    ensures
        stream(a, n) == stream(b, n),
        after(a, n) == after(b, n),
{
}

} // verus!
