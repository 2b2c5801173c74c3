//! The random draws of the engine. Every function here hands a request to the
//! `rand` crate's thread-local generator; what it promises is only what holds
//! of every draw. Nothing here is proved: the contracts say what the `rand`
//! crate documents.
//!
//! The thread-local generator seeds itself from the operating system on its
//! first use, and stops the program if the system has no seed to give.

use rand::seq::SliceRandom;
use rand::Rng;
use vstd::prelude::*;

verus! {

/// Calls `Rng::gen_range` of `rand` on the thread-local generator with the
/// inclusive range `low..=high`. The argument is a valid range, so the call
/// does not reject it, and the draw lies inside the range. Which value comes
/// back is left open.
#[verifier::external_body]
pub(crate) fn uniform_inclusive(low: usize, high: usize) -> (n: usize)
    requires
        low <= high,
    ensures
        low <= n <= high,
{
    rand::thread_rng().gen_range(low..=high)
}

/// Calls `Rng::gen_ratio` of `rand` on the thread-local generator: `true`
/// with a chance of `numerator` in `denominator`. A ratio of one is always
/// `true` and a ratio of zero always `false`; anything else may go either way.
#[verifier::external_body]
pub(crate) fn chance(numerator: u32, denominator: u32) -> (hit: bool)
    requires
        0 < denominator,
        numerator <= denominator,
    ensures
        numerator == denominator ==> hit,
        numerator == 0 ==> !hit,
{
    rand::thread_rng().gen_ratio(numerator, denominator)
}

/// Calls `rand::random::<bool>()`: a fair coin. Nothing is promised of the
/// side it lands on.
#[verifier::external_body]
pub(crate) fn flip() -> bool {
    rand::random::<bool>()
}

/// Calls `SliceRandom::choose` of `rand` on the items with the thread-local
/// generator. An empty list gives `None`; otherwise the result is one of the
/// listed items, and which one is left open.
#[verifier::external_body]
pub(crate) fn pick<T: Copy>(items: &Vec<T>) -> (chosen: Option<T>)
    ensures
        items.len() == 0 <==> chosen is None,
        chosen matches Some(item) ==> items@.contains(item),
{
    items.choose(&mut rand::thread_rng()).copied()
}

} // verus!
