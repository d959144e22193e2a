//! The random source. Everything here is a thin wrapper around the `rand`
//! crate; the contracts are taken on trust from its documentation and source.

use rand::rngs::ThreadRng;
use rand::seq::SliceRandom;
use rand::Rng;
use vstd::prelude::*;

verus! {

/// `rand::rngs::ThreadRng`, the handle to the thread-local generator. Its
/// state is opaque to the verifier.
#[verifier::external_type_specification]
#[verifier::external_body]
pub struct ExThreadRng(rand::rngs::ThreadRng);

/// Calls `rand::thread_rng`, which hands out the generator of the current
/// thread and seeds it from the operating system on first use. Nothing is
/// claimed of the handle it returns.
#[verifier::external_body]
pub(crate) fn thread_rng() -> ThreadRng {
    rand::thread_rng()
}

/// Calls `SliceRandom::shuffle` on the nine entries. The shuffle only swaps
/// entries, so afterwards the array holds the same values, each as often as
/// before; nothing is claimed about their order.
#[verifier::external_body]
pub(crate) fn shuffle(digits: &mut [u8; 9], rng: &mut ThreadRng)
    ensures
        final(digits)@.to_multiset() == old(digits)@.to_multiset(),
{
    digits.shuffle(rng)
}

/// Calls `Rng::gen_range` on the inclusive range `low..=high`, which must not
/// be empty. The value lies in the range; nothing else is claimed of it.
#[verifier::external_body]
pub(crate) fn random_in(rng: &mut ThreadRng, low: isize, high: isize) -> (n: isize)
    requires
        low <= high,
    ensures
        low <= n <= high,
{
    rng.gen_range(low..=high)
}

} // verus!
