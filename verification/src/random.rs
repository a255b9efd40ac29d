//! Drawing random indices from the thread's random number generator.
use vstd::prelude::*;
use rand::Rng;

verus! {

/// Trusted: calls `rand::Rng::gen_range(0..n)` on `rand::thread_rng()`, which
/// draws a value uniformly from `0..n` and panics on an empty range (hence
/// `n > 0`). Only the range of the result is claimed; which value comes back
/// is chance.
#[verifier::external_body]
pub(crate) fn random_below(n: usize) -> (r: usize)
    requires
        n > 0,
    ensures
        r < n,
{
    rand::thread_rng().gen_range(0..n)
}

} // verus!
