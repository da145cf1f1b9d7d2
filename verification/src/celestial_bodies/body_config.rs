//! The bounds that a randomly generated body adheres to.
use crate::utils::array_logic::Vec2;
use crate::utils::fixed::Fixed;
use vstd::prelude::*;

verus! {

/// Why a configuration was refused.
#[derive(Clone, Copy, Debug, PartialEq, Eq, Structural)]
pub enum ConfigError {
    /// The lower position bound is not below the upper one.
    EmptyPositionRange,
    /// The velocity bound is not positive, so no velocity lies in its range.
    EmptyVelocityRange,
    /// The standard deviation of the mass is negative.
    NegativeMassDeviation,
}

/// The first reason, if any, to refuse these parameters.
pub open spec fn rejection(
    lower_pos_bound: Fixed,
    upper_pos_bound: Fixed,
    velocity_bound: Fixed,
    mass_std: Fixed,
) -> Option<ConfigError> {
    if lower_pos_bound@ >= upper_pos_bound@ {
        Some(ConfigError::EmptyPositionRange)
    } else if velocity_bound@ <= 0 {
        Some(ConfigError::EmptyVelocityRange)
    } else if mass_std@ < 0 {
        Some(ConfigError::NegativeMassDeviation)
    } else {
        None
    }
}

/// What the force model reads of a body: its mass and where it is.
pub trait CelestialBody {
    /// The mass that `mass` returns.
    spec fn spec_mass(&self) -> Fixed;

    /// The place that `pos` returns.
    spec fn spec_pos(&self) -> Vec2;

    /// The mass of the body.
    fn mass(&self) -> (r: Fixed)
        ensures
            r == self.spec_mass(),
    ;

    /// The place of the body.
    fn pos(&self) -> (r: Vec2)
        ensures
            r == self.spec_pos(),
    ;
}

/// Generation parameters. A value of this type has passed the checks of `new`.
#[derive(Clone, Copy, Debug, PartialEq, Eq, Structural)]
pub struct PlanetConfig {
    lower_pos_bound: Fixed,
    upper_pos_bound: Fixed,
    velocity_bound: Fixed,
    mass_mean: Fixed,
    mass_std: Fixed,
    mass_to_size: Fixed,
}

impl PlanetConfig {
    /// The lowest coordinate of a generated place.
    pub closed spec fn spec_lower_pos_bound(&self) -> Fixed {
        self.lower_pos_bound
    }

    /// The bound that the coordinates of a generated place stay below.
    pub closed spec fn spec_upper_pos_bound(&self) -> Fixed {
        self.upper_pos_bound
    }

    /// The bound that the magnitude of a generated velocity component does not exceed.
    pub closed spec fn spec_velocity_bound(&self) -> Fixed {
        self.velocity_bound
    }

    /// The mean of the normal distribution of masses.
    pub closed spec fn spec_mass_mean(&self) -> Fixed {
        self.mass_mean
    }

    /// The standard deviation of the normal distribution of masses.
    pub closed spec fn spec_mass_std(&self) -> Fixed {
        self.mass_std
    }

    /// The side of a body's square per unit of mass.
    pub closed spec fn spec_mass_to_size(&self) -> Fixed {
        self.mass_to_size
    }

    /// Both sampling ranges hold a value, and the standard deviation is not negative.
    #[verifier::type_invariant]
    pub open spec fn valid(self) -> bool {
        rejection(
            self.lower_pos_bound(),
            self.upper_pos_bound(),
            self.velocity_bound(),
            self.mass_std(),
        ) is None
    }

    /// `position` lies in the generation box.
    pub open spec fn in_position_range(self, position: Vec2) -> bool {
        &&& self.lower_pos_bound()@ <= position.x@ < self.upper_pos_bound()@
        &&& self.lower_pos_bound()@ <= position.y@ < self.upper_pos_bound()@
    }

    /// Both components of `velocity` lie in the symmetric velocity range.
    pub open spec fn in_velocity_range(self, velocity: Vec2) -> bool {
        &&& -self.velocity_bound()@ <= velocity.x@ < self.velocity_bound()@
        &&& -self.velocity_bound()@ <= velocity.y@ < self.velocity_bound()@
    }

    /// Checks the parameters and keeps them. Refuses, in this order, an empty
    /// position range, an empty velocity range and a negative standard deviation.
    pub fn new(
        lower_pos_bound: Fixed,
        upper_pos_bound: Fixed,
        velocity_bound: Fixed,
        mass_mean: Fixed,
        mass_std: Fixed,
        mass_to_size: Fixed,
    ) -> (r: Result<PlanetConfig, ConfigError>)
        ensures
            match rejection(lower_pos_bound, upper_pos_bound, velocity_bound, mass_std) {
                Some(error) => r == Err::<PlanetConfig, ConfigError>(error),
                None => {
                    &&& r matches Ok(config)
                    &&& config.lower_pos_bound() == lower_pos_bound
                    &&& config.upper_pos_bound() == upper_pos_bound
                    &&& config.velocity_bound() == velocity_bound
                    &&& config.mass_mean() == mass_mean
                    &&& config.mass_std() == mass_std
                    &&& config.mass_to_size() == mass_to_size
                },
            },
    {
        if lower_pos_bound.raw() >= upper_pos_bound.raw() {
            Err(ConfigError::EmptyPositionRange)
        } else if velocity_bound.raw() <= 0 {
            Err(ConfigError::EmptyVelocityRange)
        } else if mass_std.raw() < 0 {
            Err(ConfigError::NegativeMassDeviation)
        } else {
            Ok(
                PlanetConfig {
                    lower_pos_bound,
                    upper_pos_bound,
                    velocity_bound,
                    mass_mean,
                    mass_std,
                    mass_to_size,
                },
            )
        }
    }

    /// The lowest coordinate of a generated place.
    #[verifier::when_used_as_spec(spec_lower_pos_bound)]
    pub fn lower_pos_bound(&self) -> (r: Fixed)
        ensures
            r == self.lower_pos_bound(),
    {
        self.lower_pos_bound
    }

    /// The bound that the coordinates of a generated place stay below.
    #[verifier::when_used_as_spec(spec_upper_pos_bound)]
    pub fn upper_pos_bound(&self) -> (r: Fixed)
        ensures
            r == self.upper_pos_bound(),
    {
        self.upper_pos_bound
    }

    /// The bound that the magnitude of a generated velocity component does not exceed.
    #[verifier::when_used_as_spec(spec_velocity_bound)]
    pub fn velocity_bound(&self) -> (r: Fixed)
        ensures
            r == self.velocity_bound(),
    {
        self.velocity_bound
    }

    /// The mean of the normal distribution of masses.
    #[verifier::when_used_as_spec(spec_mass_mean)]
    pub fn mass_mean(&self) -> (r: Fixed)
        ensures
            r == self.mass_mean(),
    {
        self.mass_mean
    }

    /// The standard deviation of the normal distribution of masses.
    #[verifier::when_used_as_spec(spec_mass_std)]
    pub fn mass_std(&self) -> (r: Fixed)
        ensures
            r == self.mass_std(),
    {
        self.mass_std
    }

    /// The side of a body's square per unit of mass.
    #[verifier::when_used_as_spec(spec_mass_to_size)]
    pub fn mass_to_size(&self) -> (r: Fixed)
        ensures
            r == self.mass_to_size(),
    {
        self.mass_to_size
    }
}

} // verus!
