//! A parametrized half-line: origin plus direction.

use crate::fixed::Fx;
use crate::vec3::Vec3;
use vstd::prelude::*;

verus! {

#[derive(Clone, Copy, PartialEq, Eq, Structural, Debug)]
pub struct Ray {
    pub origin: Vec3,
    pub direction: Vec3,
}

impl Ray {
    /// The point at parameter `t`: `origin + direction * t`.
    pub open spec fn at_spec(self, t: Fx) -> Vec3 {
        self.origin.add_spec(self.direction.mul_spec(t))
    }

    pub fn at(&self, t: Fx) -> (p: Vec3)
        ensures
            p == self.at_spec(t),
    {
        self.origin.add(self.direction.mul(t))
    }
}

} // verus!
