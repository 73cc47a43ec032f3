//! The pseudo-random generator and the draws the engine makes from it.
//!
//! Nothing in this module is proved: each function hands one call to the
//! `rand` crate and states what that crate documents of the result.

use rand::rngs::OsRng;
use rand::rngs::SmallRng;
use rand::Rng;
use rand::SeedableRng;
use vstd::prelude::*;

verus! {

/// `rand::rngs::SmallRng`, carried through as an opaque value.
#[verifier::external_type_specification]
#[verifier::external_body]
pub struct ExSmallRng(SmallRng);

/// Calls `SmallRng::seed_from_u64`. Nothing is claimed of the generator.
#[verifier::external_body]
pub(crate) fn seeded(seed: u64) -> SmallRng {
    SmallRng::seed_from_u64(seed)
}

/// Calls `SmallRng::from_rng` on `rand::rngs::OsRng`, which seeds a generator
/// from the operating system and returns an error where the system has no
/// entropy to give. The error becomes `None`. Nothing is claimed of the
/// generator, nor of when there is one.
#[verifier::external_body]
pub(crate) fn from_system() -> Option<SmallRng> {
    SmallRng::from_rng(OsRng).ok()
}

/// Calls `Rng::gen` for a `u8`. Nothing is claimed of the byte.
#[verifier::external_body]
pub(crate) fn byte(rng: &mut SmallRng) -> u8 {
    rng.gen()
}

/// Calls `Rng::gen_range` on `0..bound`, which panics on an empty range and
/// otherwise returns a value of the range.
#[verifier::external_body]
pub(crate) fn below(rng: &mut SmallRng, bound: usize) -> (r: usize)
    requires
        bound > 0,
    ensures
        r < bound,
{
    rng.gen_range(0..bound)
}

/// Calls `Rng::gen_ratio`, which panics where the denominator is 0 or the
/// numerator exceeds it, always returns `false` for a numerator of 0 and always
/// returns `true` where numerator and denominator are equal.
#[verifier::external_body]
pub(crate) fn chance(rng: &mut SmallRng, numerator: u32, denominator: u32) -> (r: bool)
    requires
        denominator > 0,
        numerator <= denominator,
    ensures
        numerator == 0 ==> !r,
        numerator == denominator ==> r,
{
    rng.gen_ratio(numerator, denominator)
}

} // verus!
