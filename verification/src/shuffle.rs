//! Random reordering, by the `rand` crate.

use rand::seq::SliceRandom;
use vstd::prelude::*;

verus! {

/// Calls `rand::seq::SliceRandom::shuffle` on the vector, with the generator
/// that `rand::thread_rng` hands out. The shuffle only ever exchanges two
/// elements of the slice, so afterwards the vector holds the values it held
/// before, each as often as before. Nothing is claimed about their order.
#[verifier::external_body]
pub(crate) fn shuffle(values: &mut Vec<usize>)
    ensures
        final(values)@.to_multiset() == old(values)@.to_multiset(),
        final(values)@.len() == old(values)@.len(),
{
    values.shuffle(&mut rand::thread_rng());
}

} // verus!
