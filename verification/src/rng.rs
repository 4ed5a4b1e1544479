//! The renderer's only source of randomness: a seedable generator from the
//! `rand` crate, drawn from through one trusted wrapper.  Every caller states
//! only what holds of every possible draw, so the verified code is correct
//! for any outcome.

use vstd::prelude::*;

verus! {

#[verifier::external_type_specification]
#[verifier::external_body]
pub struct ExStdRng(rand::rngs::StdRng);

/// Relies on rand's `RngExt::random_range`: a uniform draw from the given
/// range, which is non-empty here; the result is one raw step in [0, 1).
#[verifier::external_body]
pub(crate) fn draw_unit_raw(rng: &mut rand::rngs::StdRng) -> (r: i64)
    ensures
        0 <= r < crate::fx::SCALE,
{
    rand::RngExt::random_range(rng, 0i64..65536i64)
}

} // verus!
