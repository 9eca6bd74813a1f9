//! Trusted boundary to the process random source.

use vstd::prelude::*;
use rand::Rng;

verus! {

/// Relies on rand::rngs::ThreadRng, the rand crate's handle to the
/// thread-local generator; the type is opaque to the verifier and is only
/// passed through to the sampling calls below.
#[verifier::external_type_specification]
#[verifier::external_body]
pub struct ExThreadRng(rand::rngs::ThreadRng);

/// Relies on rand's Rng::gen_range over 0..bound: the sample lies in that
/// range. gen_range panics on an empty range, so the bound must be positive.
/// Nothing more is promised of the outcome.
#[verifier::external_body]
pub(crate) fn sample_below(rng: &mut rand::rngs::ThreadRng, bound: usize) -> (r: usize)
    requires
        1 <= bound,
    ensures
        r < bound,
{
    rng.gen_range(0..bound)
}

/// Relies on rand's Rng::gen for bool: either outcome may come back, so
/// nothing is promised of the result.
#[verifier::external_body]
pub(crate) fn sample_bool(rng: &mut rand::rngs::ThreadRng) -> (r: bool) {
    rng.gen::<bool>()
}

} // verus!
