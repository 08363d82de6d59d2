//! The parameters of a simulation, and which of them are acceptable.

use vstd::prelude::*;
use crate::motion::Bounds;
use crate::scalar::{Scalar, Value, whole};

verus! {

/// Why a simulation cannot be set up.
#[derive(Clone, Copy, Debug, PartialEq, Eq, Structural)]
pub enum ConfigurationError {
    /// The world's width or height is not a positive number.
    NonPositiveBounds,
    /// The time step is not a positive number.
    NonPositiveTimeStep,
    /// The damping factor is not a number from zero to one.
    DampingOutOfRange,
    /// A species was given a negative number of particles.
    NegativeCount,
    /// The counts do not name as many species as the rule matrix has.
    SpeciesMismatch,
    /// The starting places are not as many as the counts ask for.
    PlacementMismatch,
    /// A starting place lies outside the world.
    OutOfBounds,
}

/// The parameters that stay fixed for the life of a simulation.
#[derive(Clone, Copy, Debug, PartialEq, Eq, Structural)]
pub struct SimulationConfig {
    /// The size of the world.
    pub bounds: Bounds,
    /// The radius of a particle, which is also the width of each repulsive
    /// zone.
    pub radius: Scalar,
    /// The time step of one frame.
    pub dt: Scalar,
    /// The share of its velocity that a particle keeps from one frame to the
    /// next.
    pub damping: Scalar,
    /// The distance from which on particles do not feel each other.
    pub cutoff: Scalar,
}

impl SimulationConfig {
    /// What is wrong with the parameters, if anything: the bounds are looked
    /// at first, then the time step, then the damping.
    pub open spec fn fault(self) -> Option<ConfigurationError> {
        if !(Value::Finite(0).below(self.bounds.width@) && Value::Finite(0).below(
            self.bounds.height@,
        )) {
            Some(ConfigurationError::NonPositiveBounds)
        } else if !Value::Finite(0).below(self.dt@) {
            Some(ConfigurationError::NonPositiveTimeStep)
        } else if !(Value::Finite(0).at_most(self.damping@) && self.damping@.at_most(whole(1))) {
            Some(ConfigurationError::DampingOutOfRange)
        } else {
            None
        }
    }

    /// The parameters are acceptable.
    pub open spec fn valid(self) -> bool {
        self.fault() is None
    }

    /// Accepts the parameters, or says what is wrong with them.
    pub fn validate(&self) -> (r: Result<(), ConfigurationError>)
        ensures
            r == (match self.fault() {
                Some(e) => Err::<(), ConfigurationError>(e),
                None => Ok::<(), ConfigurationError>(()),
            }),
    {
        let zero = Scalar::zero();
        if !(zero.lt(self.bounds.width) && zero.lt(self.bounds.height)) {
            Err(ConfigurationError::NonPositiveBounds)
        } else if !zero.lt(self.dt) {
            Err(ConfigurationError::NonPositiveTimeStep)
        } else if !(zero.le(self.damping) && self.damping.le(Scalar::one())) {
            Err(ConfigurationError::DampingOutOfRange)
        } else {
            Ok(())
        }
    }
}

} // verus!
