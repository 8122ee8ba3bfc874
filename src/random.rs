use rand::Rng;
use vstd::prelude::*;

verus! {

/// Relies on rand's `thread_rng().gen_range(0..n)`: a value drawn from the
/// half-open range `0..n`, which panics only when the range is empty.
#[verifier::external_body]
pub(crate) fn random_below(n: usize) -> (r: usize)
    requires
        n > 0,
    ensures
        r < n,
{
    rand::thread_rng().gen_range(0..n)
}

/// Relies on rand's `thread_rng().gen::<bool>()`: a fair coin; nothing is
/// promised of the outcome.
#[verifier::external_body]
pub(crate) fn random_bool() -> bool {
    rand::thread_rng().gen::<bool>()
}

} // verus!
