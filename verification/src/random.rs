//! The random draw, which the `rand` crate makes.

use rand::seq::SliceRandom;
use vstd::prelude::*;

verus! {

/// `rand::rngs::ThreadRng`, the handle to the generator that `rand` keeps for
/// each thread. Nothing is known of what it holds.
#[verifier::external_type_specification]
#[verifier::external_body]
pub struct ExThreadRng(rand::rngs::ThreadRng);

/// `rand::thread_rng` hands out the calling thread's generator, which `rand`
/// seeds from the operating system on first use. Nothing is claimed of the
/// handle. Where the operating system gives no seed, `rand` panics.
pub assume_specification[ rand::thread_rng ]() -> (rng: rand::rngs::ThreadRng)
;

/// `rand::seq::SliceRandom::choose` on a slice of words: nothing for an empty
/// slice, else a reference to the element at an index that the generator
/// drew below the slice's length. Which index is not claimed, nor how likely
/// each is.
#[verifier::external_body]
pub(crate) fn choose_word<'a>(pool: &'a [String], rng: &mut rand::rngs::ThreadRng) -> (picked:
    Option<&'a String>)
    ensures
        match picked {
            Some(word) => exists|i: int| 0 <= i < pool@.len() && *word == #[trigger] pool@[i],
            None => pool@.len() == 0,
        },
{
    pool.choose(rng)
}

} // verus!
