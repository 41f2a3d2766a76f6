//! Ranges of numbers: search windows for ray parameters and clamp ranges
//! for colour channels.

use crate::fixed::{Fixed, MAX_RAW};
use vstd::prelude::*;

verus! {

/// The numbers from `min` to `max`. Nothing enforces `min <= max`: an
/// interval with `min > max` holds no number.
#[derive(Clone, Copy, Debug, PartialEq, Eq, Structural)]
pub struct Interval {
    pub min: Fixed,
    pub max: Fixed,
}

/// The interval that holds no number: from the largest number down to the
/// smallest.
pub open spec fn empty_spec() -> Interval {
    Interval { min: Fixed::of(MAX_RAW as int), max: Fixed::of(-MAX_RAW) }
}

/// The interval that holds every number.
pub open spec fn universe_spec() -> Interval {
    Interval { min: Fixed::of(-MAX_RAW), max: Fixed::of(MAX_RAW as int) }
}

/// The interval that holds no number.
pub fn empty() -> (r: Interval)
    ensures
        r == empty_spec(),
{
    Interval { min: Fixed::max_value(), max: Fixed::min_value() }
}

/// The interval that holds every number.
pub fn universe() -> (r: Interval)
    ensures
        r == universe_spec(),
{
    Interval { min: Fixed::min_value(), max: Fixed::max_value() }
}

impl Interval {
    /// True where `x` lies in the interval, ends included.
    pub open spec fn contains_spec(self, x: Fixed) -> bool {
        self.min@ <= x@ <= self.max@
    }

    /// True where `x` lies strictly inside the interval.
    pub open spec fn surrounds_spec(self, x: Fixed) -> bool {
        self.min@ < x@ < self.max@
    }

    /// The number of the interval closest to `x`; `min` where the interval
    /// is empty and `x` lies below it.
    pub open spec fn clamp_spec(self, x: Fixed) -> Fixed {
        if x@ < self.min@ {
            self.min
        } else if x@ > self.max@ {
            self.max
        } else {
            x
        }
    }

    pub fn new(min: Fixed, max: Fixed) -> (r: Interval)
        ensures
            r == (Interval { min, max }),
    {
        Interval { min, max }
    }

    /// Width of the interval: `max - min`, saturating.
    pub fn size(&self) -> (r: Fixed)
        ensures
            r == self.max.sub_spec(self.min),
    {
        self.max - self.min
    }

    /// True where `x` lies in the interval, ends included.
    pub fn contains(&self, x: Fixed) -> (r: bool)
        ensures
            r == self.contains_spec(x),
    {
        self.min.le(x) && x.le(self.max)
    }

    /// True where `x` lies strictly inside the interval.
    pub fn surrounds(&self, x: Fixed) -> (r: bool)
        ensures
            r == self.surrounds_spec(x),
    {
        self.min.lt(x) && x.lt(self.max)
    }

    /// Brings `x` into the interval.
    pub fn clamp(&self, x: Fixed) -> (r: Fixed)
        ensures
            r == self.clamp_spec(x),
    {
        if x.lt(self.min) {
            self.min
        } else if self.max.lt(x) {
            self.max
        } else {
            x
        }
    }
}

impl Default for Interval {
    /// The empty interval.
    fn default() -> (r: Interval)
        ensures
            r == empty_spec(),
    {
        Interval::new(Fixed::max_value(), Fixed::min_value())
    }
}

} // verus!
