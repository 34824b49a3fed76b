//! What is left to chance: numbers and orders drawn from the thread's random
//! number generator.

use vstd::prelude::*;
use rand::seq::SliceRandom;
use rand::Rng;

verus! {

/// A number below `n`, drawn uniformly from the thread's random number
/// generator by `rand::Rng::gen_range(0, n)`. All that is claimed of it is
/// that it lies in the range, which `gen_range` documents; `n` must not be 0,
/// for `gen_range` panics on an empty range.
#[verifier::external_body]
pub(crate) fn random_below(n: usize) -> (r: usize)
    requires
        n > 0,
    ensures
        r < n,
{
    rand::thread_rng().gen_range(0, n)
}

/// Puts the bytes in an order chosen by chance, by
/// `rand::seq::SliceRandom::shuffle` with the thread's random number
/// generator. `shuffle` only swaps: the same bytes are there afterwards,
/// each as often as before.
#[verifier::external_body]
pub(crate) fn shuffle(places: &mut Vec<u8>)
    ensures
        final(places)@.to_multiset() == old(places)@.to_multiset(),
{
    places.shuffle(&mut rand::thread_rng());
}

} // verus!
