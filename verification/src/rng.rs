//! The source of randomness, and the few draws the simulation makes from it.

use rand::rngs::OsRng;
use rand::rngs::StdRng;
use rand::Rng;
use rand::SeedableRng;
use vstd::prelude::*;

use crate::fixed::SCALE;

verus! {

/// `rand::rngs::StdRng`, the generator that every draw is made from. The
/// library hands it on and sees nothing inside it.
#[verifier::external_type_specification]
#[verifier::external_body]
pub struct ExStdRng(StdRng);

/// `rand::Rng::gen_range` on an inclusive range of 64-bit integers: some value
/// of the range. The call panics on an empty range, which `requires` excludes.
#[verifier::external_body]
pub(crate) fn uniform_between(rng: &mut StdRng, low: i64, high: i64) -> (r: i64)
    requires
        low <= high,
    ensures
        low <= r <= high,
{
    rng.gen_range(low..=high)
}

/// `rand::Rng::gen_ratio`: a boolean that is true with probability
/// `numerator / denominator`; certainly true where the two are equal and
/// certainly false where the numerator is zero. The call panics on a zero
/// denominator or a ratio above one, which `requires` excludes.
#[verifier::external_body]
pub(crate) fn ratio(rng: &mut StdRng, numerator: u32, denominator: u32) -> (r: bool)
    requires
        denominator > 0,
        numerator <= denominator,
    ensures
        numerator == denominator ==> r,
        numerator == 0 ==> !r,
{
    rng.gen_ratio(numerator, denominator)
}

/// The operating system gave no seed for a generator.
#[derive(Copy, Clone, Debug, PartialEq, Eq, Structural)]
pub struct NoEntropy;

/// `rand::SeedableRng::from_rng` on `rand::rngs::OsRng`: a generator seeded
/// by the operating system, or nothing where the system gives no seed. The
/// call hands that failure back as a value and does not panic. Nothing is
/// promised of the generator, nor of whether there is one.
#[verifier::external_body]
pub(crate) fn entropy_source() -> Option<StdRng> {
    StdRng::from_rng(OsRng).ok()
}

/// A fair coin.
pub fn coin(rng: &mut StdRng) -> bool {
    ratio(rng, 1, 2)
}

/// True with a probability of `millionths` in a million.
pub fn chance(rng: &mut StdRng, millionths: u32) -> (r: bool)
    requires
        millionths <= SCALE,
    ensures
        millionths == SCALE ==> r,
        millionths == 0 ==> !r,
{
    ratio(rng, millionths, 1_000_000)
}

/// A fixed-point value drawn evenly from `[0, 1)`.
pub fn unit_fraction(rng: &mut StdRng) -> (r: i32)
    ensures
        0 <= r < SCALE,
{
    uniform_between(rng, 0, SCALE - 1) as i32
}

} // verus!
