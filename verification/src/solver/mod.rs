use vstd::prelude::*;

pub mod beam_search;
pub mod local_search;
pub mod microcanonical_annealing;
pub mod ranking;
pub mod simulated_annealing;

verus! {

/// Most rounds that one run of an engine performs: a run ends when its stop
/// condition fires, when the search is exhausted, or after this many rounds.
pub const MAX_ROUNDS: u64 = u64::MAX;

} // verus!
