//! The calls into the `fastrand` crate.

use vstd::prelude::*;

verus! {

#[verifier::external_type_specification]
#[verifier::external_body]
pub struct ExRng(fastrand::Rng);

/// Calls `fastrand::Rng::i16`. Claimed: the number lies between the bounds,
/// which must not cross.
#[verifier::external_body]
pub(crate) fn random_i16(rng: &mut fastrand::Rng, min: i16, max: i16) -> (result: i16)
    requires
        min <= max,
    ensures
        min <= result <= max,
{
    rng.i16(min..=max)
}

/// Calls `fastrand::Rng::i32`. Claimed: the number lies between the bounds,
/// which must not cross.
#[verifier::external_body]
pub(crate) fn random_i32(rng: &mut fastrand::Rng, min: i32, max: i32) -> (result: i32)
    requires
        min <= max,
    ensures
        min <= result <= max,
{
    rng.i32(min..=max)
}

/// Makes a generator with a seed of `fastrand::u64`. Nothing is claimed of it.
#[verifier::external_body]
pub(crate) fn seeded_rng() -> fastrand::Rng {
    fastrand::Rng::with_seed(fastrand::u64(..))
}

} // verus!
