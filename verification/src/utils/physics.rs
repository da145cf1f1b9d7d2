//! The gravitational force between two bodies.
use crate::celestial_bodies::body_config::CelestialBody;
use crate::utils::array_logic::{
    dot_product, lemma_dot_self_nonnegative, lemma_length_zero, scalar_mult, subtract_arrays,
    DegenerateVector, Length, Normalise, Vec2,
};
use crate::utils::fixed::{trunc_div, Fixed, SCALE};
use vstd::prelude::*;

verus! {

/// Two places are far enough apart for the direction between them to exist.
pub open spec fn apart(pos_1: Vec2, pos_2: Vec2) -> bool {
    pos_1.minus(pos_2).dot(pos_1.minus(pos_2))@ != 0
}

/// The forces that two bodies exert on each other, the first on the body
/// at `pos_1` and the second on the body at `pos_2`.
///
/// With `dist` the separation `pos_1 - pos_2`, the force on the second body
/// is the direction of `dist` scaled by `g * mass_1 * mass_2 / (dist . dist)`:
/// it points at the first body. The force on the first body is its negation.
/// `None` where the separation has no direction.
pub open spec fn attraction(pos_1: Vec2, mass_1: Fixed, pos_2: Vec2, mass_2: Fixed, g: Fixed)
    -> Option<(Vec2, Vec2)> {
    let dist = pos_1.minus(pos_2);
    match dist.normalised() {
        None => None,
        Some(force_dir) => {
            let strength = g.spec_mul(mass_1).spec_mul(mass_2).spec_div(dist.dot(dist));
            let pull = force_dir.scaled(strength);
            Some((pull.negated(), pull))
        },
    }
}

/// The two forces are defined exactly where the bodies are apart.
pub proof fn lemma_attraction_defined(
    pos_1: Vec2,
    mass_1: Fixed,
    pos_2: Vec2,
    mass_2: Fixed,
    g: Fixed,
)
    ensures
        attraction(pos_1, mass_1, pos_2, mass_2, g) is Some <==> apart(pos_1, pos_2),
{
    lemma_length_zero(pos_1.minus(pos_2));
}

/// The two forces of a pair are equal and opposite, component by component.
pub proof fn lemma_forces_are_opposite(
    pos_1: Vec2,
    mass_1: Fixed,
    pos_2: Vec2,
    mass_2: Fixed,
    g: Fixed,
)
    ensures
        attraction(pos_1, mass_1, pos_2, mass_2, g) matches Some(forces) ==> {
            &&& forces.0.x@ == -forces.1.x@
            &&& forces.0.y@ == -forces.1.y@
            &&& forces.0 == forces.1.negated()
            &&& forces.1 == forces.0.negated()
        },
{
    if let Some(forces) = attraction(pos_1, mass_1, pos_2, mass_2, g) {
        let dist = pos_1.minus(pos_2);
        let force_dir = dist.normalised()->0;
        let strength = g.spec_mul(mass_1).spec_mul(mass_2).spec_div(dist.dot(dist));
        Fixed::lemma_of(trunc_div(force_dir.x@ * strength@, SCALE as int));
        Fixed::lemma_of(trunc_div(force_dir.y@ * strength@, SCALE as int));
        Fixed::lemma_of(-forces.1.x@);
        Fixed::lemma_of(-forces.1.y@);
        Fixed::lemma_of_view(forces.1.x);
        Fixed::lemma_of_view(forces.1.y);
    }
}

/// Gravity attracts: where the constant and the masses are not negative,
/// no component of the force on a body points away from the other body.
pub proof fn lemma_forces_attract(pos_1: Vec2, mass_1: Fixed, pos_2: Vec2, mass_2: Fixed, g: Fixed)
    requires
        g@ >= 0,
        mass_1@ >= 0,
        mass_2@ >= 0,
    ensures
        attraction(pos_1, mass_1, pos_2, mass_2, g) matches Some(forces) ==> {
            &&& pos_1.x@ <= pos_2.x@ ==> forces.0.x@ >= 0 && forces.1.x@ <= 0
            &&& pos_1.x@ >= pos_2.x@ ==> forces.0.x@ <= 0 && forces.1.x@ >= 0
            &&& pos_1.y@ <= pos_2.y@ ==> forces.0.y@ >= 0 && forces.1.y@ <= 0
            &&& pos_1.y@ >= pos_2.y@ ==> forces.0.y@ <= 0 && forces.1.y@ >= 0
        },
{
    if let Some(forces) = attraction(pos_1, mass_1, pos_2, mass_2, g) {
        let dist = pos_1.minus(pos_2);
        Fixed::lemma_of(pos_1.x@ - pos_2.x@);
        Fixed::lemma_of(pos_1.y@ - pos_2.y@);
        lemma_length_zero(dist);
        let one = Fixed::of(SCALE as int);
        Fixed::lemma_of(SCALE as int);
        let inverse = one.spec_div(dist.length());
        Fixed::lemma_div_keeps_sign(one, dist.length());
        let force_dir = dist.scaled(inverse);
        Fixed::lemma_mul_keeps_sign(dist.x, inverse);
        Fixed::lemma_mul_keeps_sign(dist.y, inverse);
        lemma_dot_self_nonnegative(dist);
        Fixed::lemma_mul_keeps_sign(g, mass_1);
        Fixed::lemma_mul_keeps_sign(g.spec_mul(mass_1), mass_2);
        let strength = g.spec_mul(mass_1).spec_mul(mass_2).spec_div(dist.dot(dist));
        Fixed::lemma_div_keeps_sign(g.spec_mul(mass_1).spec_mul(mass_2), dist.dot(dist));
        Fixed::lemma_mul_keeps_sign(force_dir.x, strength);
        Fixed::lemma_mul_keeps_sign(force_dir.y, strength);
        lemma_forces_are_opposite(pos_1, mass_1, pos_2, mass_2, g);
    }
}

/// Calculates the gravitational force between two bodies: the pull on the
/// first by the second, and the equal and opposite pull on the second by
/// the first. Fails where the bodies are too close for a direction to exist.
pub fn grav_force<A: CelestialBody, B: CelestialBody>(planet_1: &A, planet_2: &B, g: Fixed) -> (r:
    Result<(Vec2, Vec2), DegenerateVector>)
    ensures
        match r {
            Ok(forces) => attraction(
                planet_1.spec_pos(),
                planet_1.spec_mass(),
                planet_2.spec_pos(),
                planet_2.spec_mass(),
                g,
            ) == Some(forces),
            Err(_) => attraction(
                planet_1.spec_pos(),
                planet_1.spec_mass(),
                planet_2.spec_pos(),
                planet_2.spec_mass(),
                g,
            ) is None,
        },
        r is Ok <==> apart(planet_1.spec_pos(), planet_2.spec_pos()),
        r matches Ok(forces) ==> forces.0.x@ == -forces.1.x@ && forces.0.y@ == -forces.1.y@,
{
    let dist = subtract_arrays(planet_1.pos(), planet_2.pos());
    let sqr_dist = dot_product(dist, dist);
    proof {
        lemma_attraction_defined(
            planet_1.spec_pos(),
            planet_1.spec_mass(),
            planet_2.spec_pos(),
            planet_2.spec_mass(),
            g,
        );
    }
    let force_dir = match dist.normalise() {
        Ok(unit) => unit,
        Err(error) => {
            return Err(error);
        },
    };
    let strength = match g.mul(planet_1.mass()).mul(planet_2.mass()).checked_div(sqr_dist) {
        Some(quotient) => quotient,
        None => {
            return Err(DegenerateVector);
        },
    };
    let pull = scalar_mult(force_dir, strength);
    Ok((pull.negate(), pull))
}

} // verus!
