//! The one place the engine touches randomness: shuffling a vector.

use rand::seq::SliceRandom;
use vstd::prelude::*;

verus! {

/// Relies on rand::seq::SliceRandom::shuffle, seeded from rand::thread_rng():
/// a Fisher-Yates shuffle that permutes the elements of the slice in place by
/// swaps, so the length and the multiset of elements are unchanged. Nothing
/// is assumed about the resulting order.
#[verifier::external_body]
pub(crate) fn shuffle<T>(v: &mut Vec<T>)
    ensures
        final(v)@.len() == old(v)@.len(),
        final(v)@.to_multiset() == old(v)@.to_multiset(),
{
    let mut rng = rand::thread_rng();
    v.shuffle(&mut rng);
}

} // verus!
