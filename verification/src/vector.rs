//! Points and velocities in the plane, and the particles made of them.

use vstd::prelude::*;
use crate::scalar::Scalar;

verus! {

/// A vector in the plane.
#[derive(Clone, Copy, Debug, PartialEq, Eq, Structural)]
pub struct Vector2 {
    pub x: Scalar,
    pub y: Scalar,
}

impl Vector2 {
    /// Both components are finite numbers.
    pub open spec fn finite(self) -> bool {
        self.x@.is_finite() && self.y@.is_finite()
    }

    pub fn new(x: Scalar, y: Scalar) -> (r: Vector2)
        ensures
            r.x == x,
            r.y == y,
    {
        Vector2 { x, y }
    }

    /// The vector of two positive zeros.
    pub fn zero() -> (r: Vector2)
        ensures
            r.x.bits == 0,
            r.y.bits == 0,
            r.finite(),
    {
        Vector2 { x: Scalar::zero(), y: Scalar::zero() }
    }

    pub fn is_finite(self) -> (r: bool)
        ensures
            r == self.finite(),
    {
        self.x.is_finite() && self.y.is_finite()
    }
}

/// A particle: where it is and how fast it moves. It has no identity but
/// its slot in the set of its species.
#[derive(Clone, Copy, Debug, PartialEq, Eq, Structural)]
pub struct Particle {
    pub pos: Vector2,
    pub vel: Vector2,
}

impl Particle {
    /// Position and velocity are finite.
    pub open spec fn finite(self) -> bool {
        self.pos.finite() && self.vel.finite()
    }

    /// A particle at rest at `pos`.
    pub fn at_rest(pos: Vector2) -> (r: Particle)
        ensures
            r.pos == pos,
            r.vel.x.bits == 0,
            r.vel.y.bits == 0,
    {
        Particle { pos, vel: Vector2::zero() }
    }

    pub fn is_finite(self) -> (r: bool)
        ensures
            r == self.finite(),
    {
        self.pos.is_finite() && self.vel.is_finite()
    }
}

} // verus!
