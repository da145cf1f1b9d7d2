//! A body: its state, how it moves, and when it is generated anew.
use crate::celestial_bodies::body_config::{CelestialBody, PlanetConfig};
use crate::utils::array_logic::{add_arrays, scalar_mult, subtract_arrays, Length, Vec2};
use crate::utils::colour::Colour;
use crate::utils::fixed::{
    clamp, lemma_clamp_twice, lemma_trunc_div_of_double, trunc_div, Fixed, LIMIT, SCALE,
};
use crate::utils::random::draw;
use rand::rngs::StdRng;
use vstd::prelude::*;

verus! {

/// The distance from the centre, in raw units, beyond which a body is generated anew.
pub const RESPAWN_DISTANCE: i64 = 700_000_000_000;

/// A mass that is not positive.
#[derive(Clone, Copy, Debug, PartialEq, Eq, Structural)]
pub struct InvalidMass;

/// Everything that is known of a body at one moment.
#[derive(Clone, Copy, Debug, PartialEq, Eq, Structural)]
pub struct BodyState {
    pub id: u32,
    pub colour: Colour,
    pub position: Vec2,
    pub velocity: Vec2,
    pub acceleration: Vec2,
    pub size: Vec2,
    pub mass: Fixed,
    pub config: PlanetConfig,
}

impl BodyState {
    /// The sides of the square drawn for a body of this mass.
    pub open spec fn extent(mass: Fixed, config: PlanetConfig) -> Vec2 {
        Vec2 { x: mass.spec_mul(config.mass_to_size()), y: mass.spec_mul(config.mass_to_size()) }
    }

    /// The mass is positive and the size is the one that belongs to it.
    pub open spec fn valid(self) -> bool {
        &&& self.mass@ > 0
        &&& self.size == Self::extent(self.mass, self.config)
    }

    /// A new body at rest in its acceleration, with the given place and velocity.
    pub open spec fn initial(
        config: PlanetConfig,
        id: u32,
        colour: Colour,
        mass: Fixed,
        position: Vec2,
        velocity: Vec2,
    ) -> BodyState {
        BodyState {
            id,
            colour,
            position,
            velocity,
            acceleration: Vec2::origin(),
            size: Self::extent(mass, config),
            mass,
            config,
        }
    }

    /// The change of velocity that `force` brings about: the force scaled
    /// by the inverse of the mass.
    pub open spec fn impulse(self, force: Vec2) -> Vec2 {
        force.scaled(Fixed::of(SCALE as int).spec_div(self.mass))
    }

    /// The state after `force` has acted: the velocity has grown by the
    /// impulse of the force.
    pub open spec fn pushed(self, force: Vec2) -> BodyState {
        BodyState { velocity: self.velocity.plus(self.impulse(force)), ..self }
    }

    /// The state after a time step `dt`: first the velocity grows by the
    /// acceleration over `dt`, then the position by the new velocity over `dt`.
    pub open spec fn integrated(self, dt: Fixed) -> BodyState {
        let velocity = self.velocity.plus(self.acceleration.scaled(dt));
        BodyState { velocity, position: self.position.plus(velocity.scaled(dt)), ..self }
    }

    /// On one axis: the leading edge has reached `bounds`, or the trailing
    /// edge is at or below zero.
    pub open spec fn meets_wall(position: Fixed, size: Fixed, bounds: Fixed) -> bool {
        position.spec_add(size)@ >= bounds@ || position@ <= 0
    }

    /// The state after the walls were checked: on each axis that meets a
    /// wall, velocity and acceleration change sign.
    pub open spec fn reflected(self, bounds: Fixed) -> BodyState {
        let turn_x = Self::meets_wall(self.position.x, self.size.x, bounds);
        let turn_y = Self::meets_wall(self.position.y, self.size.y, bounds);
        BodyState {
            velocity: Vec2 {
                x: if turn_x { self.velocity.x.spec_neg() } else { self.velocity.x },
                y: if turn_y { self.velocity.y.spec_neg() } else { self.velocity.y },
            },
            acceleration: Vec2 {
                x: if turn_x { self.acceleration.x.spec_neg() } else { self.acceleration.x },
                y: if turn_y { self.acceleration.y.spec_neg() } else { self.acceleration.y },
            },
            ..self
        }
    }

    /// The body is further than `RESPAWN_DISTANCE` from `centre`.
    pub open spec fn too_far(self, centre: Vec2) -> bool {
        self.position.minus(centre).length()@ > RESPAWN_DISTANCE
    }

    /// The same body at another place with another velocity.
    pub open spec fn placed(self, position: Vec2, velocity: Vec2) -> BodyState {
        BodyState { position, velocity, ..self }
    }
}

/// The two states are states of one body: the id, the colour, the mass, the
/// size and the configuration agree.
pub open spec fn same_body(one: BodyState, other: BodyState) -> bool {
    &&& one.id == other.id
    &&& one.colour == other.colour
    &&& one.mass == other.mass
    &&& one.size == other.size
    &&& one.config == other.config
}

/// A body that is moved, turned around, pushed or placed anew stays the
/// body it was.
pub proof fn lemma_motion_keeps_the_body(
    body: BodyState,
    dt: Fixed,
    bounds: Fixed,
    force: Vec2,
    position: Vec2,
    velocity: Vec2,
)
    ensures
        same_body(body.integrated(dt), body),
        same_body(body.reflected(bounds), body),
        same_body(body.pushed(force), body),
        same_body(body.placed(position, velocity), body),
{
}

/// The two values differ by one raw unit at most.
pub open spec fn within_one_unit(one: Fixed, other: Fixed) -> bool {
    -1 <= one@ - other@ <= 1
}

/// A body that meets a wall on an axis leaves with the velocity and the
/// acceleration of that axis negated, so with their magnitudes unchanged;
/// on an axis on which it meets no wall, both stay as they are. Its place,
/// mass and size stay as they are.
pub proof fn lemma_reflection(body: BodyState, bounds: Fixed)
    requires
        body.velocity.in_range(),
        body.acceleration.in_range(),
    ensures
        BodyState::meets_wall(body.position.x, body.size.x, bounds) ==> {
            &&& body.reflected(bounds).velocity.x@ == -body.velocity.x@
            &&& body.reflected(bounds).acceleration.x@ == -body.acceleration.x@
        },
        !BodyState::meets_wall(body.position.x, body.size.x, bounds) ==> {
            &&& body.reflected(bounds).velocity.x == body.velocity.x
            &&& body.reflected(bounds).acceleration.x == body.acceleration.x
        },
        BodyState::meets_wall(body.position.y, body.size.y, bounds) ==> {
            &&& body.reflected(bounds).velocity.y@ == -body.velocity.y@
            &&& body.reflected(bounds).acceleration.y@ == -body.acceleration.y@
        },
        !BodyState::meets_wall(body.position.y, body.size.y, bounds) ==> {
            &&& body.reflected(bounds).velocity.y == body.velocity.y
            &&& body.reflected(bounds).acceleration.y == body.acceleration.y
        },
        body.reflected(bounds).position == body.position,
        body.reflected(bounds).mass == body.mass,
        body.reflected(bounds).size == body.size,
{
    Fixed::lemma_of(-body.velocity.x@);
    Fixed::lemma_of(-body.velocity.y@);
    Fixed::lemma_of(-body.acceleration.x@);
    Fixed::lemma_of(-body.acceleration.y@);
}

/// A body whose leading edge on the x axis is exactly at the wall, and
/// which moves and accelerates toward it, leaves with both negated: the
/// signs are flipped and the magnitudes unchanged.
pub proof fn lemma_reflection_at_the_wall(body: BodyState, bounds: Fixed)
    requires
        body.velocity.in_range(),
        body.acceleration.in_range(),
        bounds.in_range(),
        body.position.x@ == bounds@ - body.size.x@,
        body.velocity.x@ > 0,
        body.acceleration.x@ > 0,
    ensures
        body.reflected(bounds).velocity.x@ == -body.velocity.x@,
        body.reflected(bounds).acceleration.x@ == -body.acceleration.x@,
        body.reflected(bounds).velocity.x@ < 0,
        body.reflected(bounds).acceleration.x@ < 0,
{
    Fixed::lemma_of(body.position.x@ + body.size.x@);
    lemma_reflection(body, bounds);
}

/// Generating a body anew changes its place and its velocity and nothing else.
pub proof fn lemma_respawn_keeps_the_body(body: BodyState, position: Vec2, velocity: Vec2)
    ensures
        body.placed(position, velocity).mass == body.mass,
        body.placed(position, velocity).size == body.size,
        body.placed(position, velocity).id == body.id,
        body.placed(position, velocity).colour == body.colour,
        body.placed(position, velocity).acceleration == body.acceleration,
        body.placed(position, velocity).config == body.config,
        body.valid() ==> body.placed(position, velocity).valid(),
{
}

/// Equal and opposite forces change the velocities of two bodies of the
/// same mass by equal and opposite amounts, so that the sum of the two
/// velocities stays as it is, where neither velocity saturates.
pub proof fn lemma_equal_masses_share_a_pull(one: BodyState, other: BodyState, pull: Vec2)
    requires
        one.mass == other.mass,
        pull.in_range(),
        -LIMIT <= one.velocity.x@ - other.impulse(pull).x@ <= LIMIT,
        -LIMIT <= one.velocity.y@ - other.impulse(pull).y@ <= LIMIT,
        -LIMIT <= other.velocity.x@ + other.impulse(pull).x@ <= LIMIT,
        -LIMIT <= other.velocity.y@ + other.impulse(pull).y@ <= LIMIT,
    ensures
        one.impulse(pull.negated()).x@ == -other.impulse(pull).x@,
        one.impulse(pull.negated()).y@ == -other.impulse(pull).y@,
        one.pushed(pull.negated()).velocity.x@ + other.pushed(pull).velocity.x@
            == one.velocity.x@ + other.velocity.x@,
        one.pushed(pull.negated()).velocity.y@ + other.pushed(pull).velocity.y@
            == one.velocity.y@ + other.velocity.y@,
{
    let inverse = Fixed::of(SCALE as int).spec_div(other.mass);
    Fixed::lemma_mul_of_negation(pull.x, inverse);
    Fixed::lemma_mul_of_negation(pull.y, inverse);
    let change = other.impulse(pull);
    Fixed::lemma_of(other.velocity.x@ + change.x@);
    Fixed::lemma_of(other.velocity.y@ + change.y@);
    Fixed::lemma_of(one.velocity.x@ - change.x@);
    Fixed::lemma_of(one.velocity.y@ - change.y@);
}

/// Two steps of `dt` and one step of twice `dt` give the same velocity, to
/// one raw unit on each axis, where twice `dt` and the change of velocity
/// over it are in range.
pub proof fn lemma_two_steps_match_one_in_velocity(body: BodyState, dt: Fixed)
    requires
        body.velocity.in_range(),
        body.acceleration.in_range(),
        dt.in_range(),
        -LIMIT <= 2 * dt@ <= LIMIT,
        -LIMIT <= trunc_div(body.acceleration.x@ * (2 * dt@), SCALE as int) <= LIMIT,
        -LIMIT <= trunc_div(body.acceleration.y@ * (2 * dt@), SCALE as int) <= LIMIT,
    ensures
        within_one_unit(
            body.integrated(dt).integrated(dt).velocity.x,
            body.integrated(dt.spec_add(dt)).velocity.x,
        ),
        within_one_unit(
            body.integrated(dt).integrated(dt).velocity.y,
            body.integrated(dt.spec_add(dt)).velocity.y,
        ),
{
    Fixed::lemma_of(dt@ + dt@);
    lemma_grows_alike(body.velocity.x, body.acceleration.x, dt);
    lemma_grows_alike(body.velocity.y, body.acceleration.y, dt);
}

/// Two steps of `dt` and one step of twice `dt` leave a body that does not
/// accelerate with the same velocity and, to one raw unit on each axis, at
/// the same place, where twice `dt` and the way made over it are in range.
pub proof fn lemma_two_steps_match_one(body: BodyState, dt: Fixed)
    requires
        body.position.in_range(),
        body.velocity.in_range(),
        body.acceleration == Vec2::origin(),
        dt.in_range(),
        -LIMIT <= 2 * dt@ <= LIMIT,
        -LIMIT <= trunc_div(body.velocity.x@ * (2 * dt@), SCALE as int) <= LIMIT,
        -LIMIT <= trunc_div(body.velocity.y@ * (2 * dt@), SCALE as int) <= LIMIT,
    ensures
        body.integrated(dt).integrated(dt).velocity == body.velocity,
        body.integrated(dt.spec_add(dt)).velocity == body.velocity,
        within_one_unit(
            body.integrated(dt).integrated(dt).position.x,
            body.integrated(dt.spec_add(dt)).position.x,
        ),
        within_one_unit(
            body.integrated(dt).integrated(dt).position.y,
            body.integrated(dt.spec_add(dt)).position.y,
        ),
{
    let twice = dt.spec_add(dt);
    Fixed::lemma_of(dt@ + dt@);
    Fixed::lemma_of(0);
    assert(0 * dt@ == 0 && 0 * twice@ == 0) by (nonlinear_arith);
    Fixed::lemma_of(trunc_div(0 * dt@, SCALE as int));
    Fixed::lemma_of(trunc_div(0 * twice@, SCALE as int));
    Fixed::lemma_of(body.velocity.x@ + 0);
    Fixed::lemma_of(body.velocity.y@ + 0);
    Fixed::lemma_of_view(body.velocity.x);
    Fixed::lemma_of_view(body.velocity.y);
    assert(body.integrated(dt).velocity == body.velocity);
    assert(body.integrated(dt).integrated(dt).velocity == body.velocity);
    assert(body.integrated(twice).velocity == body.velocity);
    lemma_grows_alike(body.position.x, body.velocity.x, dt);
    lemma_grows_alike(body.position.y, body.velocity.y, dt);
}

/// A value that grows twice by `rate` over `dt` and one that grows once by
/// `rate` over twice `dt` end within one raw unit of each other.
proof fn lemma_grows_alike(start: Fixed, rate: Fixed, dt: Fixed)
    requires
        start.in_range(),
        rate.in_range(),
        dt.in_range(),
        -LIMIT <= 2 * dt@ <= LIMIT,
        -LIMIT <= trunc_div(rate@ * (2 * dt@), SCALE as int) <= LIMIT,
    ensures
        within_one_unit(
            start.spec_add(rate.spec_mul(dt)).spec_add(rate.spec_mul(dt)),
            start.spec_add(rate.spec_mul(dt.spec_add(dt))),
        ),
{
    let whole = rate@ * dt@;
    assert(rate@ * (2 * dt@) == 2 * whole) by (nonlinear_arith)
        requires
            whole == rate@ * dt@,
    ;
    lemma_trunc_div_of_double(whole);
    let step = trunc_div(whole, SCALE as int);
    let stride = trunc_div(2 * whole, SCALE as int);
    Fixed::lemma_of(dt@ + dt@);
    Fixed::lemma_of(step);
    Fixed::lemma_of(stride);
    Fixed::lemma_of(start@ + step);
    Fixed::lemma_of(clamp(start@ + step) + step);
    Fixed::lemma_of(start@ + stride);
    lemma_clamp_twice(start@, step);
}

/// A celestial body. Its mass, size, id, colour and configuration never change.
#[derive(Clone, Copy, Debug, PartialEq, Eq, Structural)]
pub struct Planet {
    state: BodyState,
}

impl View for Planet {
    type V = BodyState;

    closed spec fn view(&self) -> BodyState {
        self.state
    }
}

impl CelestialBody for Planet {
    open spec fn spec_mass(&self) -> Fixed {
        self@.mass
    }

    open spec fn spec_pos(&self) -> Vec2 {
        self@.position
    }

    fn mass(&self) -> (r: Fixed) {
        self.state.mass
    }

    fn pos(&self) -> (r: Vec2) {
        self.state.position
    }
}

impl Planet {
    /// The state of every body is valid.
    #[verifier::type_invariant]
    pub open spec fn well_formed(self) -> bool {
        self@.valid()
    }

    /// A body with a place and a velocity drawn from the ranges of
    /// `planet_const`. Refuses a mass that is not positive, and then draws nothing.
    pub fn new(
        planet_const: &PlanetConfig,
        id: u32,
        colour: Colour,
        mass: Fixed,
        rng: &mut StdRng,
    ) -> (r: Result<Planet, InvalidMass>)
        ensures
            r is Ok <==> mass@ > 0,
            r matches Ok(planet) ==> {
                &&& planet@ == BodyState::initial(
                    *planet_const,
                    id,
                    colour,
                    mass,
                    planet@.position,
                    planet@.velocity,
                )
                &&& planet_const.in_position_range(planet@.position)
                &&& planet_const.in_velocity_range(planet@.velocity)
            },
            r is Err ==> *final(rng) == *old(rng),
    {
        if mass.raw() <= 0 {
            return Err(InvalidMass);
        }
        let (pos, vel) = Planet::configure_planet(planet_const, rng);
        Planet::with_motion(planet_const, id, colour, mass, pos, vel)
    }

    /// A body at `position` with `velocity`. Refuses a mass that is not positive.
    pub fn with_motion(
        planet_const: &PlanetConfig,
        id: u32,
        colour: Colour,
        mass: Fixed,
        position: Vec2,
        velocity: Vec2,
    ) -> (r: Result<Planet, InvalidMass>)
        ensures
            r is Ok <==> mass@ > 0,
            r matches Ok(planet) ==> planet@ == BodyState::initial(
                *planet_const,
                id,
                colour,
                mass,
                position,
                velocity,
            ),
    {
        if mass.raw() <= 0 {
            return Err(InvalidMass);
        }
        let side = mass.mul(planet_const.mass_to_size());
        Ok(
            Planet {
                state: BodyState {
                    id,
                    colour,
                    position,
                    velocity,
                    acceleration: Vec2::zero(),
                    size: Vec2::new(side, side),
                    mass,
                    config: *planet_const,
                },
            },
        )
    }

    /// Draws a place and a velocity: each coordinate of the place from the
    /// position range, each component of the velocity from the velocity range.
    pub fn configure_planet(planet_const: &PlanetConfig, rng: &mut StdRng) -> (r: (Vec2, Vec2))
        ensures
            planet_const.in_position_range(r.0),
            planet_const.in_velocity_range(r.1),
    {
        proof {
            use_type_invariant(planet_const);
        }
        let lower = planet_const.lower_pos_bound();
        let upper = planet_const.upper_pos_bound();
        let fastest = planet_const.velocity_bound();
        let x = draw(rng, lower, upper);
        let y = draw(rng, lower, upper);
        let vel_x = draw(rng, fastest.neg(), fastest);
        let vel_y = draw(rng, fastest.neg(), fastest);
        (Vec2::new(x, y), Vec2::new(vel_x, vel_y))
    }

    /// Moves the body to `position` and gives it `velocity`.
    pub fn place(&mut self, position: Vec2, velocity: Vec2)
        ensures
            final(self)@ == old(self)@.placed(position, velocity),
    {
        proof {
            use_type_invariant(&*self);
        }
        self.state.position = position;
        self.state.velocity = velocity;
    }

    /// Gives the body the acceleration that the next steps will apply.
    pub fn set_acceleration(&mut self, acceleration: Vec2)
        ensures
            final(self)@ == (BodyState { acceleration, ..old(self)@ }),
    {
        proof {
            use_type_invariant(&*self);
        }
        self.state.acceleration = acceleration;
    }

    /// Generates the body anew: a drawn place and a drawn velocity, the mass
    /// and the size as they were.
    fn reset_planet(&mut self, rng: &mut StdRng)
        ensures
            final(self)@ == old(self)@.placed(final(self)@.position, final(self)@.velocity),
            old(self)@.config.in_position_range(final(self)@.position),
            old(self)@.config.in_velocity_range(final(self)@.velocity),
    {
        let config = self.state.config;
        let (pos, vel) = Planet::configure_planet(&config, rng);
        self.place(pos, vel);
    }

    /// Adds a force to the body: the velocity grows by the force scaled by
    /// the inverse of the mass.
    pub fn add_force(&mut self, force: Vec2)
        ensures
            final(self)@ == old(self)@.pushed(force),
    {
        proof {
            use_type_invariant(&*self);
        }
        let inverse = Fixed::one().checked_div(self.state.mass).unwrap();
        let scaled_force = scalar_mult(force, inverse); // i.e. force / mass
        self.state.velocity = add_arrays(self.state.velocity, scaled_force);
    }

    /// Performs one step of `dt`: the acceleration changes the velocity,
    /// then the new velocity changes the position.
    pub fn update(&mut self, dt: Fixed)
        ensures
            final(self)@ == old(self)@.integrated(dt),
    {
        proof {
            use_type_invariant(&*self);
        }
        let scaled_acc = scalar_mult(self.state.acceleration, dt);
        self.state.velocity = add_arrays(self.state.velocity, scaled_acc);
        let scaled_vel = scalar_mult(self.state.velocity, dt);
        self.state.position = add_arrays(self.state.position, scaled_vel);
    }

    /// Generates the body anew where it is further than `RESPAWN_DISTANCE`
    /// from `centre`, and leaves it as it is elsewhere.
    pub fn check_dist_from_centre(&mut self, centre: Vec2, rng: &mut StdRng)
        ensures
            !old(self)@.too_far(centre) ==> final(self)@ == old(self)@ && *final(rng) == *old(rng),
            old(self)@.too_far(centre) ==> {
                &&& final(self)@ == old(self)@.placed(final(self)@.position, final(self)@.velocity)
                &&& old(self)@.config.in_position_range(final(self)@.position)
                &&& old(self)@.config.in_velocity_range(final(self)@.velocity)
            },
            final(self)@.mass == old(self)@.mass,
            final(self)@.size == old(self)@.size,
            final(self)@.id == old(self)@.id,
    {
        let dist = subtract_arrays(self.pos(), centre);
        let dist_len = dist.get_length();
        if dist_len.raw() > RESPAWN_DISTANCE {
            self.reset_planet(rng);
        }
    }

    /// Checks for collisions with the walls at zero and at `bounds`, and
    /// turns the body around on each axis that meets one.
    pub fn check_collision(&mut self, bounds: Fixed)
        ensures
            final(self)@ == old(self)@.reflected(bounds),
    {
        proof {
            use_type_invariant(&*self);
        }
        let position = self.state.position;
        let size = self.state.size;
        if position.x.add(size.x).raw() >= bounds.raw() || position.x.raw() <= 0 {
            self.state.velocity.x = self.state.velocity.x.neg();
            self.state.acceleration.x = self.state.acceleration.x.neg();
        }
        if position.y.add(size.y).raw() >= bounds.raw() || position.y.raw() <= 0 {
            self.state.velocity.y = self.state.velocity.y.neg();
            self.state.acceleration.y = self.state.acceleration.y.neg();
        }
    }

    /// The body's state, for a renderer to read.
    pub fn snapshot(&self) -> (r: BodyState)
        ensures
            r == self@,
    {
        self.state
    }

    /// The number that tells the body from the others.
    pub fn id(&self) -> (r: u32)
        ensures
            r == self@.id,
    {
        self.state.id
    }

    /// The colour in which the body is drawn.
    pub fn colour(&self) -> (r: Colour)
        ensures
            r == self@.colour,
    {
        self.state.colour
    }

    /// The velocity of the body.
    pub fn velocity(&self) -> (r: Vec2)
        ensures
            r == self@.velocity,
    {
        self.state.velocity
    }

    /// The acceleration of the body.
    pub fn acceleration(&self) -> (r: Vec2)
        ensures
            r == self@.acceleration,
    {
        self.state.acceleration
    }

    /// The sides of the square drawn for the body.
    pub fn size(&self) -> (r: Vec2)
        ensures
            r == self@.size,
    {
        self.state.size
    }
}

} // verus!
