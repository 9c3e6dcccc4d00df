//! Random numbers from the `rand` crate. Nothing in this file is proved, and
//! nothing is claimed of which number or letter is drawn.

use vstd::prelude::*;

verus! {

/// Whether `c` is an ASCII letter or digit.
pub open spec fn is_alphanumeric(c: char) -> bool {
    let n = c as u32;
    (0x30 <= n <= 0x39) || (0x41 <= n <= 0x5A) || (0x61 <= n <= 0x7A)
}

/// The thread-local generator of `rand`.
#[verifier::external_type_specification]
#[verifier::external_body]
pub struct ExThreadRng(rand::rngs::ThreadRng);

/// `rand::thread_rng`: the generator of the calling thread. It is seeded
/// from the system, and stops the program where the system gives no seed.
#[verifier::external_body]
pub(crate) fn thread_generator() -> (r: rand::rngs::ThreadRng) {
    rand::thread_rng()
}

/// `Rng::gen` for `u64`: a key drawn uniformly from all 64-bit values. The
/// generator takes a new seed from the system from time to time, and stops
/// the program where the system gives none.
#[verifier::external_body]
pub(crate) fn random_key(generator: &mut rand::rngs::ThreadRng) -> (r: u64) {
    rand::Rng::gen(generator)
}

/// `DistString::sample_string` on the `Alphanumeric` distribution of
/// `rand`: a string of `length` characters, each an ASCII letter or digit.
/// It draws from the generator, which can stop the program as said above.
#[verifier::external_body]
pub(crate) fn random_text(generator: &mut rand::rngs::ThreadRng, length: usize) -> (r: String)
    ensures
        r@.len() == length,
        forall|i: int| 0 <= i < r@.len() ==> is_alphanumeric(#[trigger] r@[i]),
{
    rand::distributions::DistString::sample_string(
        &rand::distributions::Alphanumeric,
        generator,
        length,
    )
}

} // verus!
