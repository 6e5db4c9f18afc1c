//! Trusted boundary to the outside random-number generator.
//!
//! The generator is a seedable `StdRng` owned by the caller, so a render is
//! reproducible from its seed. Verified code learns nothing about a draw but
//! its range.

use vstd::prelude::*;

verus! {

#[verifier::external_type_specification]
#[verifier::external_body]
pub struct ExStdRng(rand::rngs::StdRng);

/// Relies on rand's `Rng::gen_range` over a half-open range: the draw lies
/// in `[lo, hi)`; the range must be non-empty, or the call panics.
#[verifier::external_body]
pub(crate) fn rand_i64_half_open(rng: &mut rand::rngs::StdRng, lo: i64, hi: i64) -> (r: i64)
    requires
        lo < hi,
    ensures
        lo <= r < hi,
{
    rand::Rng::gen_range(rng, lo..hi)
}

/// Relies on rand's `Rng::gen_range` over an inclusive range: the draw lies
/// in `[lo, hi]`; the range must be non-empty, or the call panics.
#[verifier::external_body]
pub(crate) fn rand_i64_inclusive(rng: &mut rand::rngs::StdRng, lo: i64, hi: i64) -> (r: i64)
    requires
        lo <= hi,
    ensures
        lo <= r <= hi,
{
    rand::Rng::gen_range(rng, lo..=hi)
}

} // verus!
