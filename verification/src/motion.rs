//! Reflection at the edges of the world.

use vstd::prelude::*;
use crate::scalar::{Scalar, Value};
use crate::vector::{Particle, Vector2};

verus! {

/// The size of the world: positions from zero up to `width` and `height`
/// lie inside it.
#[derive(Clone, Copy, Debug, PartialEq, Eq, Structural)]
pub struct Bounds {
    pub width: Scalar,
    pub height: Scalar,
}

/// A coordinate at or past an edge: `p <= 0` or `p >= extent`.
pub open spec fn at_edge(p: Value, extent: Value) -> bool {
    p.at_most(Value::Finite(0)) || extent.at_most(p)
}

/// A coordinate inside the world as a starting place: `0 <= p < extent`.
pub open spec fn inside(p: Value, extent: Value) -> bool {
    Value::Finite(0).at_most(p) && p.below(extent)
}

/// The velocity component after reflection at position `p`.
pub open spec fn reflected(p: Scalar, v: Scalar, extent: Scalar) -> Scalar {
    if at_edge(p@, extent@) {
        v.flipped()
    } else {
        v
    }
}

impl Bounds {
    /// The velocity after reflection at `pos`, each axis by itself.
    pub open spec fn reflected(self, pos: Vector2, vel: Vector2) -> Vector2 {
        Vector2 {
            x: reflected(pos.x, vel.x, self.width),
            y: reflected(pos.y, vel.y, self.height),
        }
    }

    /// The particle as a frame leaves it: where it has moved to, with its
    /// velocity reflected there.
    pub open spec fn settled(self, moved: Particle) -> Particle {
        Particle { pos: moved.pos, vel: self.reflected(moved.pos, moved.vel) }
    }

    /// `pos` is a place where a particle may start.
    pub open spec fn holds(self, pos: Vector2) -> bool {
        inside(pos.x@, self.width@) && inside(pos.y@, self.height@)
    }

    /// Inverts each velocity component whose coordinate has reached or
    /// passed an edge of the world. The position is left where it is.
    pub fn reflect(&self, pos: Vector2, vel: Vector2) -> (r: Vector2)
        ensures
            r == self.reflected(pos, vel),
    {
        Vector2 {
            x: reflect_axis(pos.x, vel.x, self.width),
            y: reflect_axis(pos.y, vel.y, self.height),
        }
    }

    /// Ends a particle's move: reflects the new velocity at the new
    /// position. The position is not pulled back into the world; a particle
    /// may stand outside for a frame, and the inverted velocity brings it
    /// back.
    pub fn settle(&self, moved: Particle) -> (r: Particle)
        ensures
            r == self.settled(moved),
            r.finite() == moved.finite(),
    {
        proof {
            lemma_reflection_keeps_magnitude(moved.pos.x, moved.vel.x, self.width);
            lemma_reflection_keeps_magnitude(moved.pos.y, moved.vel.y, self.height);
        }
        Particle { pos: moved.pos, vel: self.reflect(moved.pos, moved.vel) }
    }

    /// Whether `pos` lies inside the world, the upper edges excluded.
    pub fn contains(&self, pos: Vector2) -> (r: bool)
        ensures
            r == self.holds(pos),
    {
        Scalar::zero().le(pos.x) && pos.x.lt(self.width) && Scalar::zero().le(pos.y) && pos.y.lt(
            self.height,
        )
    }
}

/// Inverts the velocity component `v` where the coordinate `p` is at or
/// past an edge.
pub fn reflect_axis(p: Scalar, v: Scalar, extent: Scalar) -> (r: Scalar)
    ensures
        r == reflected(p, v, extent),
{
    if p.le(Scalar::zero()) || p.ge(extent) {
        v.negated()
    } else {
        v
    }
}

/// Reflection changes a sign and nothing else: the speed stays, and so does
/// finiteness.
pub proof fn lemma_reflection_keeps_magnitude(p: Scalar, v: Scalar, extent: Scalar)
    ensures
        reflected(p, v, extent).magnitude() == v.magnitude(),
        reflected(p, v, extent)@.is_finite() == v@.is_finite(),
        reflected(p, v, extent)@ == v@ || reflected(p, v, extent)@ == v@.opposite(),
{
}

/// Reflecting twice at the same place gives the velocity back.
pub proof fn lemma_reflection_twice(p: Scalar, v: Scalar, extent: Scalar)
    ensures
        reflected(p, reflected(p, v, extent), extent) == v,
{
}

/// A coordinate strictly inside the world leaves the velocity alone.
pub proof fn lemma_no_reflection_inside(p: Scalar, v: Scalar, extent: Scalar)
    requires
        Value::Finite(0).below(p@),
        p@.below(extent@),
    ensures
        reflected(p, v, extent) == v,
{
}

} // verus!
