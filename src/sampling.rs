//! Uniform random integers.
use vstd::prelude::*;
use rand::Rng;

verus! {

/// Relies on rand::Rng::gen_range on the thread-local generator: for a non-empty
/// half-open range it returns a value inside it (it panics on an empty one).
#[verifier::external_body]
pub(crate) fn random_in(lo: i32, hi: i32) -> (r: i32)
    requires
        lo < hi,
    ensures
        lo <= r < hi,
{
    rand::thread_rng().gen_range(lo..hi)
}

} // verus!
