//! The random source of the game: the thread-local generator of `rand`.
//!
//! Nothing is proved of these two functions: their bodies call `rand`, and
//! their contracts are taken on trust. What a contract states holds of every
//! outcome; that the outcomes are equally likely is stated nowhere.
//!
//! `rand::thread_rng` seeds its generator from the system when a thread first
//! uses it, and panics if the system gives no seed.

use rand::Rng;
use vstd::prelude::*;

verus! {

/// A coin, from `rand::Rng::gen::<bool>` on `rand::thread_rng()`. Either
/// value can come back, so nothing is stated of the result.
#[verifier::external_body]
pub(crate) fn coin_toss() -> bool {
    rand::thread_rng().gen()
}

/// A number from `low..=high`, from `rand::Rng::gen_range` on
/// `rand::thread_rng()`. The call panics on an empty range, which `requires`
/// leaves out. The result lies in the range; nothing else is stated of it.
#[verifier::external_body]
pub(crate) fn random_in_range(low: usize, high: usize) -> (value: usize)
    requires
        low <= high,
    ensures
        low <= value <= high,
{
    rand::thread_rng().gen_range(low..=high)
}

} // verus!
