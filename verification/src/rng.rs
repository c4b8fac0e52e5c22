//! Random numbers from the operating system's thread-local generator.
use vstd::prelude::*;
use rand::Rng;

verus! {

/// A random `u64` from `rand::thread_rng()` (`Rng::gen`). Nothing is
/// promised of the value: it is chance.
#[verifier::external_body]
pub(crate) fn random_u64() -> u64 {
    rand::thread_rng().gen::<u64>()
}

} // verus!
