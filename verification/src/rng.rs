use vstd::prelude::*;

use rand::seq::SliceRandom;
use rand::Rng;

verus! {

/// Relies on rand's `Rng::gen_range` (on a fresh `thread_rng`): a draw from
/// `0..n` is strictly below `n`.  Nothing more is assumed of a random value.
#[verifier::external_body]
pub(crate) fn random_below_u64(n: u64) -> (r: u64)
    requires
        n > 0,
    ensures
        r < n,
{
    rand::thread_rng().gen_range(0..n)
}

/// Relies on rand's `Rng::gen_range` (on a fresh `thread_rng`): a draw from
/// `0..n` is strictly below `n`.  Used for cumulative-weight sampling, whose
/// totals exceed `u64`.
#[verifier::external_body]
pub(crate) fn random_below_u128(n: u128) -> (r: u128)
    requires
        n > 0,
    ensures
        r < n,
{
    rand::thread_rng().gen_range(0..n)
}

/// Relies on rand's `SliceRandom::shuffle` (on a fresh `thread_rng`): a
/// Fisher-Yates shuffle permutes the slice in place, so the multiset of
/// elements is unchanged.
#[verifier::external_body]
pub(crate) fn shuffle_indices(v: &mut Vec<usize>)
    ensures
        final(v)@.to_multiset() == old(v)@.to_multiset(),
{
    v.shuffle(&mut rand::thread_rng());
}

} // verus!
