//! Random shuffling, the one source of chance in the library.
use rand::seq::SliceRandom;
use vstd::prelude::*;

verus! {

/// Calls `rand::seq::SliceRandom::shuffle` with `rand::thread_rng()`. Trusted: the
/// items afterwards are a permutation of the items before (the crate swaps items in
/// place). Which permutation comes out is left open: it is drawn at random.
#[verifier::external_body]
pub(crate) fn shuffle<T>(items: &mut Vec<T>)
    ensures
        final(items)@.to_multiset() == old(items)@.to_multiset(),
{
    let mut rng = rand::thread_rng();
    items.shuffle(&mut rng);
}

} // verus!
