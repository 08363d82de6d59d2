//! The piecewise force law: the regime that a distance falls in, and the
//! constants of each regime.

use vstd::prelude::*;
use crate::scalar::{Scalar, Value, whole, HUNDRED_BITS, ONE_BITS, TEN_BITS};

verus! {

/// The regime that governs the force between two particles.
#[derive(Clone, Copy, Debug, PartialEq, Eq, Structural)]
pub enum Zone {
    /// No force: the particles coincide, or are as far apart as the cutoff
    /// or farther, or the distance is no positive number.
    Inert,
    /// Hard-core repulsion, up to one radius.
    HardCore,
    /// Near-field repulsion, past one radius and up to two.
    NearField,
    /// The species pair's rule decides, past two radii and short of the
    /// cutoff.
    RuleGoverned,
}

/// `0 < d <= radius`.
pub open spec fn in_hard_core(d: Value, radius: Value) -> bool {
    Value::Finite(0).below(d) && d.at_most(radius)
}

/// `radius < d <= 2 radius`.
pub open spec fn in_near_field(d: Value, radius: Value) -> bool {
    radius.below(d) && d.at_most(radius.twice())
}

/// `2 radius < d < cutoff`.
pub open spec fn in_rule_zone(d: Value, radius: Value, cutoff: Value) -> bool {
    radius.twice().below(d) && d.below(cutoff)
}

/// The zone of a distance `d`.
pub open spec fn zone_of(d: Value, radius: Value, cutoff: Value) -> Zone {
    if in_hard_core(d, radius) {
        Zone::HardCore
    } else if in_near_field(d, radius) {
        Zone::NearField
    } else if in_rule_zone(d, radius, cutoff) {
        Zone::RuleGoverned
    } else {
        Zone::Inert
    }
}

/// The factor by which the separation of two particles is scaled to give
/// the force between them, as a recipe: the library decides which, the
/// caller does the arithmetic.
#[derive(Clone, Copy, Debug, PartialEq, Eq, Structural)]
pub enum Term {
    /// No force.
    Nothing,
    /// Repulsion. The factor is `numerator / max(100, (d - offset)^2)`.
    Repulsion { numerator: Scalar, offset: Scalar },
    /// The rule of the species pair. The factor is `coefficient / d^(3/2)`:
    /// a positive coefficient attracts, a negative one repels.
    Rule { coefficient: Scalar },
}

/// The term of each zone. The hard core repels with numerator one, counted
/// from the particle itself; the near field with numerator ten, counted from
/// one radius; past two radii the rule coefficient `g` decides alone.
pub open spec fn term_of(zone: Zone, radius: Scalar, g: Scalar) -> Term {
    match zone {
        Zone::Inert => Term::Nothing,
        Zone::HardCore => Term::Repulsion {
            numerator: Scalar { bits: ONE_BITS },
            offset: Scalar { bits: 0 },
        },
        Zone::NearField => Term::Repulsion { numerator: Scalar { bits: TEN_BITS }, offset: radius },
        Zone::RuleGoverned => Term::Rule { coefficient: g },
    }
}

/// The denominator of a repulsive force factor: `x`, but never less than one
/// hundred.
pub open spec fn floored(x: Scalar) -> Scalar {
    Scalar { bits: HUNDRED_BITS }.larger(x)
}

/// Decides the zone of the distance `d` between two particles.
pub fn classify(d: Scalar, radius: Scalar, cutoff: Scalar) -> (zone: Zone)
    ensures
        zone == zone_of(d@, radius@, cutoff@),
{
    let two_radii = radius.doubled();
    if d.gt(Scalar::zero()) && d.le(radius) {
        Zone::HardCore
    } else if d.gt(radius) && d.le(two_radii) {
        Zone::NearField
    } else if d.gt(two_radii) && d.lt(cutoff) {
        Zone::RuleGoverned
    } else {
        Zone::Inert
    }
}

/// The term of the force in `zone`, for particles of radius `radius` and a
/// species pair of coefficient `g`.
pub fn term(zone: Zone, radius: Scalar, g: Scalar) -> (r: Term)
    ensures
        r == term_of(zone, radius, g),
{
    match zone {
        Zone::Inert => Term::Nothing,
        Zone::HardCore => Term::Repulsion { numerator: Scalar::one(), offset: Scalar::zero() },
        Zone::NearField => Term::Repulsion { numerator: Scalar::ten(), offset: radius },
        Zone::RuleGoverned => Term::Rule { coefficient: g },
    }
}

/// Keeps the denominator of a repulsive factor from falling under one
/// hundred, so that the force stays bounded as the distance goes to zero.
pub fn floor_denominator(x: Scalar) -> (r: Scalar)
    ensures
        r == floored(x),
        r@ == (if whole(100).below(x@) { x@ } else { whole(100) }),
{
    Scalar::hundred().max(x)
}

/// No distance lies in two zones.
pub proof fn lemma_zones_exclusive(d: Value, radius: Value, cutoff: Value)
    ensures
        !(in_hard_core(d, radius) && in_near_field(d, radius)),
        !(in_hard_core(d, radius) && in_rule_zone(d, radius, cutoff)),
        !(in_near_field(d, radius) && in_rule_zone(d, radius, cutoff)),
{
}

/// Every positive distance short of the cutoff lies in one of the three
/// zones of force, whatever number the radius is.
pub proof fn lemma_zones_exhaustive(d: Value, radius: Value, cutoff: Value)
    requires
        Value::Finite(0).below(d),
        d.below(cutoff),
        radius != Value::NotANumber,
    ensures
        zone_of(d, radius, cutoff) != Zone::Inert,
{
}

/// A distance of exactly one radius or exactly two radii is repelled: a tie
/// falls into the lower zone, never to the rule.
pub proof fn lemma_ties_fall_low(d: Value, radius: Value, cutoff: Value)
    requires
        Value::Finite(0).below(radius),
        d.same(radius) || d.same(radius.twice()),
    ensures
        d.same(radius) ==> zone_of(d, radius, cutoff) == Zone::HardCore,
        zone_of(d, radius, cutoff) == Zone::HardCore || zone_of(d, radius, cutoff)
            == Zone::NearField,
{
}

/// The rule coefficient is read past two radii only: up to two radii, and
/// where there is no force, the term is the same under every coefficient.
pub proof fn lemma_rule_is_read_past_two_radii(zone: Zone, radius: Scalar, g: Scalar, h: Scalar)
    requires
        zone != Zone::RuleGoverned,
    ensures
        term_of(zone, radius, g) == term_of(zone, radius, h),
{
}

/// Nothing acts on a particle from where it stands itself, nor from the
/// cutoff or beyond, where the cutoff lies past two radii.
pub proof fn lemma_no_force_at_zero_or_beyond(d: Value, radius: Value, cutoff: Value)
    requires
        d == Value::Finite(0) || cutoff.at_most(d),
        Value::Finite(0).at_most(radius),
        radius.twice().below(cutoff),
    ensures
        zone_of(d, radius, cutoff) == Zone::Inert,
{
}

} // verus!
