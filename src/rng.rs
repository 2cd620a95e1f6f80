use rand::Rng;
use vstd::prelude::*;

verus! {

/// Relies on `rand::Rng::gen_range` over `lo..hi` on the thread-local generator:
/// the value lies in the half-open range, which must not be empty (else it panics).
#[verifier::external_body]
pub(crate) fn random_below(lo: usize, hi: usize) -> (r: usize)
    requires
        lo < hi,
    ensures
        lo <= r < hi,
{
    rand::thread_rng().gen_range(lo..hi)
}

/// Relies on `rand::Rng::gen_ratio(1, 2)` on the thread-local generator: a fair coin.
/// Nothing is promised of the outcome.
#[verifier::external_body]
pub(crate) fn coin_flip() -> (r: bool) {
    rand::thread_rng().gen_ratio(1, 2)
}

} // verus!
