//! Angles and the source of random numbers.

use crate::fixed::Fixed;
use rand::rngs::StdRng;
use rand::Rng;
use std::ops::Range;
use vstd::prelude::*;

verus! {

/// `rand::rngs::StdRng`, the generator that every sampling function draws
/// from. It is declared so that it can be handed through: nothing of its
/// state is visible to proofs.
#[verifier::external_type_specification]
#[verifier::external_body]
pub struct ExStdRng(StdRng);

/// Raw value of the closest fixed-point number to pi.
pub const PI_RAW: i64 = 13493037705;

/// Pi.
pub fn pi() -> (r: Fixed)
    ensures
        r@ == PI_RAW,
{
    Fixed { raw: PI_RAW }
}

/// The range from the smallest positive number up to, and without, one.
pub open spec fn unit_range_spec() -> Range<Fixed> {
    Range { start: Fixed::of(1), end: Fixed::of(crate::fixed::SCALE as int) }
}

/// The range from the smallest positive number up to, and without, one.
pub fn unit_range() -> (r: Range<Fixed>)
    ensures
        r == unit_range_spec(),
{
    Range { start: Fixed { raw: 1 }, end: Fixed::one() }
}

/// The angle in radians: `degrees * pi / 180`, computed from left to right.
pub open spec fn degrees_to_radians_spec(degrees: Fixed) -> Fixed {
    degrees.mul_spec(Fixed::of(PI_RAW as int)).div_spec(Fixed::of(180 * crate::fixed::SCALE))
}

/// Converts an angle from degrees to radians: `degrees * pi / 180`.
pub fn degrees_to_radians(degrees: Fixed) -> (r: Fixed)
    ensures
        r == degrees_to_radians_spec(degrees),
{
    degrees * pi() / Fixed::from_int(180)
}

/// Draws a number from `range`, its end left out.
///
/// Trusted: calls `rand::Rng::random_range` on the raw values. For a
/// half-open integer range that is not empty, that function returns a value
/// of the range; it panics on an empty range, which the precondition leaves
/// out. Nothing is claimed of which value is drawn, nor of the generator
/// afterwards.
#[verifier::external_body]
pub fn random_from_range(rng: &mut StdRng, range: Range<Fixed>) -> (r: Fixed)
    requires
        range.start@ < range.end@,
    ensures
        range.start@ <= r@ < range.end@,
{
    Fixed { raw: rng.random_range(range.start.raw..range.end.raw) }
}

} // verus!
