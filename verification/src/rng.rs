//! Trusted boundary to the `rand` crate.
//!
//! The search draws all of its randomness from a seedable generator that the
//! caller supplies, so that a run can be reproduced by reseeding. Every draw
//! goes through one of the wrappers below; their contracts state only what
//! holds of every possible outcome (the range of the draw), never which value
//! comes back.

use vstd::prelude::*;

verus! {

/// `rand::rngs::StdRng`: the seedable pseudo-random generator the search
/// draws from. Opaque to verification; only the wrappers below touch it.
#[verifier::external_type_specification]
#[verifier::external_body]
pub struct ExStdRng(rand::rngs::StdRng);

/// Relies on rand's `Rng::gen_range` on an `i64` range: the draw is uniform
/// over `[lo, hi)`, and the range must be non-empty.
#[verifier::external_body]
pub(crate) fn gen_i64(rng: &mut rand::rngs::StdRng, lo: i64, hi: i64) -> (r: i64)
    requires
        lo < hi,
    ensures
        lo <= r < hi,
{
    rand::Rng::gen_range(rng, lo..hi)
}

/// Relies on rand's `Rng::gen_range` on a `usize` range: the draw is uniform
/// over `[0, n)`, and `n` must be positive.
#[verifier::external_body]
pub(crate) fn gen_index(rng: &mut rand::rngs::StdRng, n: usize) -> (r: usize)
    requires
        0 < n,
    ensures
        r < n,
{
    rand::Rng::gen_range(rng, 0..n)
}

} // verus!
