//! Draws from the level's random stream.
//!
//! Every random decision of the generator and of the floor event machine is
//! taken from one `WyRand` stream, so that a seed fixes a whole session.
use vstd::prelude::*;
use bevy_rand::prelude::WyRand;
use rand::Rng;

verus! {

/// bevy_rand's `WyRand` generator, held opaque: only the draws below read it.
#[verifier::external_type_specification]
#[verifier::external_body]
pub struct ExWyRand(WyRand);

/// Relies on `rand::Rng::gen_range` on an integer range `lo..hi`: it panics on an
/// empty range and otherwise returns a value of the half-open range.
#[verifier::external_body]
pub(crate) fn draw_range(rng: &mut WyRand, lo: u64, hi: u64) -> (r: u64)
    requires
        lo < hi,
    ensures
        lo <= r < hi,
{
    rng.gen_range(lo..hi)
}

/// Relies on `rand::Rng::gen_range` on an integer range `lo..hi` of `i64`.
#[verifier::external_body]
pub(crate) fn draw_signed(rng: &mut WyRand, lo: i64, hi: i64) -> (r: i64)
    requires
        lo < hi,
    ensures
        lo <= r < hi,
{
    rng.gen_range(lo..hi)
}

/// Relies on `rand::Rng::gen_ratio`: it panics when `denominator == 0` or
/// `numerator > denominator`, is always `true` when the two are equal and
/// always `false` when `numerator == 0`.
#[verifier::external_body]
pub(crate) fn draw_ratio(rng: &mut WyRand, numerator: u32, denominator: u32) -> (r: bool)
    requires
        0 < denominator,
        numerator <= denominator,
    ensures
        numerator == 0 ==> !r,
        numerator == denominator ==> r,
{
    rng.gen_ratio(numerator, denominator)
}

} // verus!
