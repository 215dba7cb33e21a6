//! The library's only source of randomness: two thin wrappers over the
//! `rand` crate. Their results depend on the thread-local generator, so
//! the contracts state only what holds of every outcome.

use vstd::prelude::*;

verus! {

/// Relies on `rand::thread_rng` and `rand::Rng::gen_range`: a draw from
/// the nonempty range `0..n` lies strictly below `n` (`gen_range` panics
/// on an empty range, which the precondition excludes).
#[verifier::external_body]
pub(crate) fn rand_below(n: usize) -> (r: usize)
    requires
        1 <= n,
    ensures
        r < n,
{
    rand::Rng::gen_range(&mut rand::thread_rng(), 0..n)
}

/// Relies on `rand::seq::SliceRandom::shuffle`: an in-place Fisher-Yates
/// shuffle permutes the elements and changes nothing else.
#[verifier::external_body]
pub(crate) fn shuffle_in_place(v: &mut Vec<i32>)
    ensures
        final(v)@.len() == old(v)@.len(),
        final(v)@.to_multiset() == old(v)@.to_multiset(),
{
    rand::seq::SliceRandom::shuffle(v.as_mut_slice(), &mut rand::thread_rng())
}

} // verus!
