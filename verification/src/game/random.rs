use vstd::prelude::*;

use rand::seq::SliceRandom;

verus! {

/// rand's per-thread generator, carried through as an opaque value.
#[verifier::external_type_specification]
#[verifier::external_body]
pub struct ExThreadRng(rand::rngs::ThreadRng);

/// Calls `rand::thread_rng`, which hands out the generator of the calling
/// thread (seeding it from the operating system on first use, and panicking
/// if the system offers no randomness). Nothing is stated of the generator.
#[verifier::external_body]
pub(crate) fn thread_rng() -> (rng: rand::rngs::ThreadRng) {
    rand::thread_rng()
}

/// Calls `SliceRandom::shuffle` on the vector's elements. In rand's source it
/// swaps elements pairwise (Fisher-Yates), so the vector ends up holding the
/// same elements, as many times each, in an order chosen by `rng`; which
/// order is left unstated. Drawing from the generator may reseed it from the
/// operating system, and rand panics if the system then offers no
/// randomness; that depends on the machine, not on the arguments.
#[verifier::external_body]
pub(crate) fn shuffle<T>(v: &mut Vec<T>, rng: &mut rand::rngs::ThreadRng)
    ensures
        final(v)@.len() == old(v)@.len(),
        final(v)@.to_multiset() == old(v)@.to_multiset(),
{
    v.shuffle(rng)
}

} // verus!
