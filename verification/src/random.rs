//! The random source, and the draws the systems make from it.

use crate::params::{clamp_ppm, BOUNTY_MAX, BOUNTY_MIN, GESTATION_MAX, GESTATION_MIN, PPM};
use rand::Rng;
use vstd::prelude::*;

verus! {

/// `rand::rngs::ThreadRng`, the generator of the current thread. Nothing is
/// known of what it holds.
#[verifier::external_type_specification]
#[verifier::external_body]
pub struct ExThreadRng(rand::rngs::ThreadRng);

/// `rand::thread_rng` hands out the generator of the current thread. Nothing
/// is claimed of it. It fails only where the system cannot seed a generator.
pub assume_specification[ rand::thread_rng ]() -> (rng: rand::rngs::ThreadRng);

/// `Rng::gen_ratio`: true with a chance of `numerator` in `denominator`. It
/// panics on a zero denominator and on a numerator above it. Its
/// documentation promises `true` where both are equal and `false` for a
/// numerator of zero; of any other draw nothing is known.
#[verifier::external_body]
fn draw_ratio(rng: &mut rand::rngs::ThreadRng, numerator: u32, denominator: u32) -> (hit: bool)
    requires
        0 < denominator,
        numerator <= denominator,
    ensures
        numerator == 0 ==> !hit,
        numerator == denominator ==> hit,
{
    rng.gen_ratio(numerator, denominator)
}

/// `Rng::gen_range` on an inclusive range of `u32`: some value of the range.
/// It panics on an empty range.
#[verifier::external_body]
fn draw_between(rng: &mut rand::rngs::ThreadRng, low: u32, high: u32) -> (value: u32)
    requires
        low <= high,
    ensures
        low <= value <= high,
{
    rng.gen_range(low..=high)
}

/// Decides an event that has a chance of `ppm` in a million. A chance above
/// one is certain.
pub fn chance(rng: &mut rand::rngs::ThreadRng, ppm: u32) -> (hit: bool)
    ensures
        ppm == 0 ==> !hit,
        ppm >= PPM ==> hit,
{
    draw_ratio(rng, clamp_ppm(ppm), PPM)
}

/// Draws the length of a pregnancy in days.
pub fn draw_gestation(rng: &mut rand::rngs::ThreadRng) -> (days: u32)
    ensures
        GESTATION_MIN <= days <= GESTATION_MAX,
{
    draw_between(rng, GESTATION_MIN, GESTATION_MAX)
}

/// Draws the yield of a new forage patch.
pub fn draw_bounty(rng: &mut rand::rngs::ThreadRng) -> (bounty: u8)
    ensures
        BOUNTY_MIN <= bounty <= BOUNTY_MAX,
{
    let drawn: u32 = draw_between(rng, BOUNTY_MIN as u32, BOUNTY_MAX as u32);
    drawn as u8
}

} // verus!
