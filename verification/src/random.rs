//! Shuffling, by the `rand` crate.

use vstd::prelude::*;
use rand::SeedableRng;
use rand::seq::SliceRandom;
use crate::assoc::Key;
use crate::ident::{AgentId, ids_view};

verus! {

/// The order in which `rand` leaves `pool` when it shuffles it with a
/// generator seeded with `seed`.
pub uninterp spec fn shuffled(pool: Seq<Key>, seed: u64) -> Seq<Key>;

/// Shuffles `pool` with `rand`'s `SliceRandom::shuffle`, driven by a
/// `StdRng` that `SeedableRng::seed_from_u64` makes from `seed`. The
/// generator is a deterministic function of its seed and the shuffle draws
/// from nothing else, so the outcome is a function of the pool and the seed;
/// it holds the same agents as before, each as often as before.
#[verifier::external_body]
pub(crate) fn shuffle_with_seed(pool: &mut Vec<AgentId>, seed: u64)
    ensures
        ids_view(final(pool)@) == shuffled(ids_view(old(pool)@), seed),
        ids_view(final(pool)@).to_multiset() == ids_view(old(pool)@).to_multiset(),
{
    let mut rng = rand::rngs::StdRng::seed_from_u64(seed);
    pool.shuffle(&mut rng);
}

} // verus!
