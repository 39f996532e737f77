use vstd::prelude::*;
use rand::Rng;

verus! {

/// Relies on `rand::Rng::gen_range` over `rand::thread_rng()`: a value drawn
/// from `0..hi`. It panics on an empty range, which `requires` rules out.
#[verifier::external_body]
pub(crate) fn random_below(hi: usize) -> (r: usize)
    requires
        hi > 0,
    ensures
        r < hi,
{
    rand::thread_rng().gen_range(0..hi)
}

/// Picks which of `count` registered lights to sample a direction towards;
/// each one is equally likely.
pub fn choose_light(count: usize) -> (r: usize)
    requires
        count > 0,
    ensures
        r < count,
{
    random_below(count)
}

} // verus!
