//! Rays: half-lines from an origin along a direction.

use crate::fixed::Fixed;
use crate::vector::Vector3;
use vstd::prelude::*;

verus! {

/// The points `origin + t * direction`. The direction need not have unit
/// length.
#[derive(Clone, Copy, Debug, PartialEq, Eq, Structural)]
pub struct Ray {
    pub origin: Vector3,
    pub direction: Vector3,
}

impl Ray {
    /// The point of the ray at parameter `t`.
    pub open spec fn at_spec(self, t: Fixed) -> Vector3 {
        self.origin.add_spec(self.direction.mul_scalar_spec(t))
    }

    pub fn new(origin: Vector3, direction: Vector3) -> (r: Ray)
        ensures
            r == (Ray { origin, direction }),
    {
        Ray { origin, direction }
    }

    /// The point of the ray at parameter `t`.
    pub fn at(&self, t: Fixed) -> (r: Vector3)
        ensures
            r == self.at_spec(t),
    {
        self.origin + t * self.direction
    }
}

} // verus!
