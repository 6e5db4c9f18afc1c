//! Closed numeric range with strict containment and saturating clamp.

use crate::fixed::Fx;
use vstd::prelude::*;

verus! {

#[derive(Clone, Copy, PartialEq, Eq, Structural, Debug)]
pub struct Interval {
    pub min: Fx,
    pub max: Fx,
}

impl Interval {
    /// Strict (open) containment, despite the closed bounds.
    pub open spec fn surrounds_spec(self, value: Fx) -> bool {
        self.min.raw < value.raw < self.max.raw
    }

    pub open spec fn clamp_spec(self, value: Fx) -> Fx {
        if value.raw < self.min.raw {
            self.min
        } else if self.max.raw < value.raw {
            self.max
        } else {
            value
        }
    }

    pub fn new(min: Fx, max: Fx) -> (r: Interval)
        ensures
            r.min == min,
            r.max == max,
    {
        Interval { min, max }
    }

    pub fn surrounds(&self, value: &Fx) -> (b: bool)
        ensures
            b == self.surrounds_spec(*value),
    {
        self.min.raw < value.raw && value.raw < self.max.raw
    }

    pub fn clamp(&self, value: &Fx) -> (r: Fx)
        ensures
            r == self.clamp_spec(*value),
    {
        if value.raw < self.min.raw {
            self.min
        } else if self.max.raw < value.raw {
            self.max
        } else {
            *value
        }
    }
}

} // verus!
