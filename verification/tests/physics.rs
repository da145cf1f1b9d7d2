use nbody::celestial_bodies::body_config::PlanetConfig;
use nbody::celestial_bodies::planet::Planet;
use nbody::utils::array_logic::{DegenerateVector, Vec2};
use nbody::utils::colour::Colour;
use nbody::utils::fixed::{Fixed, SCALE};
use nbody::utils::physics::grav_force;

fn fx(raw: i64) -> Fixed {
    Fixed::from_raw(raw)
}

fn vec2(x: i64, y: i64) -> Vec2 {
    Vec2::new(fx(x), fx(y))
}

fn body(mass: i64, x: i64, y: i64) -> Planet {
    let config = PlanetConfig::new(
        fx(-400 * SCALE),
        fx(400 * SCALE),
        fx(50 * SCALE),
        fx(10 * SCALE),
        fx(3 * SCALE),
        fx(1_000_000),
    )
    .unwrap();
    let white = Colour::new(Fixed::one(), Fixed::one(), Fixed::one(), Fixed::one());
    Planet::with_motion(&config, 0, white, fx(mass), vec2(x, y), Vec2::zero()).unwrap()
}

#[test]
fn unit_masses_ten_apart_pull_with_a_hundredth() {
    let left = body(SCALE, 0, 0);
    let right = body(SCALE, 10 * SCALE, 0);
    let (on_left, on_right) = grav_force(&left, &right, Fixed::one()).unwrap();
    // Each force points at the other body.
    assert_eq!(on_left, vec2(10_000_000, 0));
    assert_eq!(on_right, vec2(-10_000_000, 0));
}

#[test]
fn forces_point_at_the_other_body_on_the_y_axis_too() {
    let low = body(SCALE, 5 * SCALE, -10 * SCALE);
    let high = body(SCALE, 5 * SCALE, 10 * SCALE);
    let (on_low, on_high) = grav_force(&low, &high, Fixed::one()).unwrap();
    assert_eq!(on_low, vec2(0, 2_500_000));
    assert_eq!(on_high, vec2(0, -2_500_000));
}

#[test]
fn forces_are_equal_and_opposite() {
    let one = body(2_500_000_000, 1_500_000_000, -2_250_000_000);
    let other = body(7 * SCALE, -3 * SCALE, 4 * SCALE);
    let (on_one, on_other) = grav_force(&one, &other, Fixed::one()).unwrap();
    assert_eq!(on_one, vec2(-172_397_599, 239_441_110));
    assert_eq!(on_other, vec2(172_397_599, -239_441_110));
    assert_eq!(on_one.x.raw(), -on_other.x.raw());
    assert_eq!(on_one.y.raw(), -on_other.y.raw());
}

#[test]
fn forces_swap_with_the_bodies() {
    let one = body(2_500_000_000, 1_500_000_000, -2_250_000_000);
    let other = body(2_500_000_000, -3 * SCALE, 4 * SCALE);
    let (on_one, on_other) = grav_force(&one, &other, Fixed::one()).unwrap();
    let (swapped_other, swapped_one) = grav_force(&other, &one, Fixed::one()).unwrap();
    assert_eq!(on_one, swapped_one);
    assert_eq!(on_other, swapped_other);
}

#[test]
fn force_grows_with_the_gravitational_constant() {
    let left = body(SCALE, 0, 0);
    let right = body(SCALE, 10 * SCALE, 0);
    let (on_left, on_right) = grav_force(&left, &right, fx(2 * SCALE)).unwrap();
    assert_eq!(on_left, vec2(20_000_000, 0));
    assert_eq!(on_right, vec2(-20_000_000, 0));
}

#[test]
fn force_grows_with_both_masses() {
    let left = body(3 * SCALE, 0, 0);
    let right = body(5 * SCALE, 10 * SCALE, 0);
    let (on_left, on_right) = grav_force(&left, &right, Fixed::one()).unwrap();
    assert_eq!(on_left, vec2(150_000_000, 0));
    assert_eq!(on_right, vec2(-150_000_000, 0));
}

#[test]
fn bodies_at_one_place_have_no_force() {
    let one = body(SCALE, 3 * SCALE, 4 * SCALE);
    let other = body(2 * SCALE, 3 * SCALE, 4 * SCALE);
    assert_eq!(grav_force(&one, &other, Fixed::one()), Err(DegenerateVector));
}

#[test]
fn bodies_too_close_to_measure_have_no_force() {
    let one = body(SCALE, 0, 0);
    let other = body(SCALE, 31_622, 0);
    assert_eq!(grav_force(&one, &other, Fixed::one()), Err(DegenerateVector));
    let further = body(SCALE, 31_623, 0);
    assert!(grav_force(&one, &further, Fixed::one()).is_ok());
}
