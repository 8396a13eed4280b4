//! The one random primitive the engine draws on.

use vstd::prelude::*;

verus! {

/// Relies on `rand::Rng::random_range` over `0..n`: the sample lies below
/// `n` (the range is non-empty, so the call does not panic). The draw is not
/// a function of `n`; callers state only what holds of every outcome.
#[verifier::external_body]
pub(crate) fn sample_below(n: usize) -> (r: usize)
    requires
        n > 0,
    ensures
        r < n,
{
    let mut rng = rand::rng();
    rand::Rng::random_range(&mut rng, 0..n)
}

} // verus!
