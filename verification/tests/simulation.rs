use nbody::celestial_bodies::body_config::{CelestialBody, PlanetConfig};
use nbody::celestial_bodies::planet::Planet;
use nbody::simulation::{advance_bodies, apply_gravity, tick};
use nbody::utils::array_logic::{DegenerateVector, Vec2};
use nbody::utils::colour::Colour;
use nbody::utils::fixed::{Fixed, SCALE};
use nbody::utils::physics::grav_force;
use rand::rngs::StdRng;
use rand::SeedableRng;

fn fx(raw: i64) -> Fixed {
    Fixed::from_raw(raw)
}

fn vec2(x: i64, y: i64) -> Vec2 {
    Vec2::new(fx(x), fx(y))
}

fn whole(x: i64, y: i64) -> Vec2 {
    vec2(x * SCALE, y * SCALE)
}

fn config() -> PlanetConfig {
    PlanetConfig::new(
        fx(-400 * SCALE),
        fx(400 * SCALE),
        fx(50 * SCALE),
        fx(10 * SCALE),
        fx(3 * SCALE),
        fx(SCALE / 2),
    )
    .unwrap()
}

fn body(id: u32, mass: i64, position: Vec2, velocity: Vec2) -> Planet {
    let white = Colour::new(Fixed::one(), Fixed::one(), Fixed::one(), Fixed::one());
    Planet::with_motion(&config(), id, white, fx(mass * SCALE), position, velocity).unwrap()
}

fn arena() -> (Fixed, Vec2) {
    (fx(200 * SCALE), whole(100, 100))
}

#[test]
fn two_unit_masses_fall_toward_each_other() {
    let (bounds, centre) = arena();
    let mut rng = StdRng::seed_from_u64(31);
    let mut bodies = vec![
        body(0, 1, whole(95, 100), whole(0, 0)),
        body(1, 1, whole(105, 100), whole(0, 0)),
    ];
    // The first tick moves nothing, for the bodies are at rest, and then pulls.
    assert_eq!(tick(&mut bodies, Fixed::one(), bounds, centre, Fixed::one(), &mut rng), Ok(()));
    assert_eq!(bodies[0].pos(), whole(95, 100));
    assert_eq!(bodies[1].pos(), whole(105, 100));
    assert_eq!(bodies[0].velocity(), vec2(10_000_000, 0));
    assert_eq!(bodies[1].velocity(), vec2(-10_000_000, 0));
    // The second tick moves each body by the same way toward the other.
    assert_eq!(tick(&mut bodies, Fixed::one(), bounds, centre, Fixed::one(), &mut rng), Ok(()));
    assert_eq!(bodies[0].pos(), vec2(95_010_000_000, 100 * SCALE));
    assert_eq!(bodies[1].pos(), vec2(104_990_000_000, 100 * SCALE));
    assert_eq!(bodies[0].velocity(), vec2(20_040_119, 0));
    assert_eq!(bodies[1].velocity(), vec2(-20_040_119, 0));
    assert_eq!(tick(&mut bodies, Fixed::one(), bounds, centre, Fixed::one(), &mut rng), Ok(()));
    assert_eq!(bodies[0].pos(), vec2(95_030_040_119, 100 * SCALE));
    assert_eq!(bodies[1].pos(), vec2(104_969_959_881, 100 * SCALE));
    // The midpoint has not moved.
    assert_eq!(bodies[0].pos().x.raw() + bodies[1].pos().x.raw(), 200 * SCALE);
    assert_eq!(bodies[0].pos().y.raw() + bodies[1].pos().y.raw(), 200 * SCALE);
    for planet in &bodies {
        assert_eq!(planet.mass().raw(), SCALE);
        assert_eq!(planet.acceleration(), Vec2::zero());
    }
}

#[test]
fn tick_pulls_from_the_places_that_the_move_has_left() {
    let (bounds, centre) = arena();
    let mut rng = StdRng::seed_from_u64(32);
    let mut bodies = vec![
        body(0, 1, whole(90, 100), whole(5, 0)),
        body(1, 1, whole(105, 100), whole(0, 0)),
    ];
    assert_eq!(tick(&mut bodies, Fixed::one(), bounds, centre, Fixed::one(), &mut rng), Ok(()));
    // Ten apart after the move, not fifteen as before it.
    assert_eq!(bodies[0].pos(), whole(95, 100));
    assert_eq!(bodies[0].velocity(), vec2(5_010_000_000, 0));
    assert_eq!(bodies[1].velocity(), vec2(-10_000_000, 0));
}

#[test]
fn tick_turns_a_body_around_before_it_is_pulled() {
    let (bounds, centre) = arena();
    let mut rng = StdRng::seed_from_u64(33);
    let mut bodies = vec![
        body(0, 1, whole(198, 50), whole(3, -60)),
        body(1, 2, whole(110, 100), whole(-1, 1)),
    ];
    let half = fx(SCALE / 2);
    assert_eq!(tick(&mut bodies, half, bounds, centre, Fixed::one(), &mut rng), Ok(()));
    assert_eq!(bodies[0].pos(), vec2(199_500_000_000, 20 * SCALE));
    assert_eq!(bodies[0].velocity(), vec2(-3_000_102_240, -59_999_908_552));
    assert_eq!(bodies[1].pos(), vec2(109_500_000_000, 100_500_000_000));
    assert_eq!(bodies[1].velocity(), vec2(-999_948_880, 999_954_276));
}

#[test]
fn tick_generates_a_far_body_anew_before_it_is_pulled() {
    let (bounds, centre) = arena();
    let mut rng = StdRng::seed_from_u64(34);
    let mut bodies = vec![
        body(0, 1, whole(5_000, 5_000), whole(0, 0)),
        body(1, 1, whole(100, 100), whole(0, 0)),
    ];
    let far = bodies[0];
    assert!(tick(&mut bodies, Fixed::one(), bounds, centre, Fixed::one(), &mut rng).is_ok());
    let place = bodies[0].pos();
    assert!(-400 * SCALE <= place.x.raw() && place.x.raw() < 400 * SCALE);
    assert!(-400 * SCALE <= place.y.raw() && place.y.raw() < 400 * SCALE);
    assert_eq!(bodies[0].mass(), far.mass());
    assert_eq!(bodies[0].size(), far.size());
    assert_eq!(bodies[0].id(), far.id());
    assert_eq!(bodies[1].pos(), whole(100, 100));
    // The body that stayed is pulled toward the new place.
    let pull = bodies[1].velocity();
    assert_eq!(pull.x.raw() > 0, place.x.raw() > 100 * SCALE);
    assert_eq!(pull.y.raw() > 0, place.y.raw() > 100 * SCALE);
}

#[test]
fn tick_of_no_body_and_of_one_body() {
    let (bounds, centre) = arena();
    let mut rng = StdRng::seed_from_u64(35);
    let mut none: Vec<Planet> = Vec::new();
    assert_eq!(tick(&mut none, Fixed::one(), bounds, centre, Fixed::one(), &mut rng), Ok(()));
    assert!(none.is_empty());
    let mut one = vec![body(0, 1, whole(50, 50), whole(1, -2))];
    assert_eq!(tick(&mut one, Fixed::one(), bounds, centre, Fixed::one(), &mut rng), Ok(()));
    assert_eq!(one.len(), 1);
    assert_eq!(one[0].pos(), whole(51, 48));
    assert_eq!(one[0].velocity(), whole(1, -2));
}

#[test]
fn advance_bodies_steps_each_body_alone() {
    let (bounds, centre) = arena();
    let mut rng = StdRng::seed_from_u64(36);
    let mut bodies = vec![
        body(0, 1, whole(50, 50), whole(1, -2)),
        body(1, 2, whole(198, 100), whole(4, 0)),
        body(2, 4, whole(100, 1), whole(0, -3)),
    ];
    let mut expected = bodies.clone();
    advance_bodies(&mut bodies, fx(SCALE / 2), bounds, centre, &mut rng);
    for planet in expected.iter_mut() {
        planet.update(fx(SCALE / 2));
        planet.check_collision(bounds);
    }
    assert_eq!(bodies, expected);
    assert_eq!(bodies[0].pos(), vec2(50_500_000_000, 49 * SCALE));
    assert_eq!(bodies[1].velocity(), whole(-4, 0));
    assert_eq!(bodies[2].velocity(), whole(0, 3));
}

#[test]
fn apply_gravity_visits_each_pair_once_in_order() {
    let mut bodies = vec![
        body(0, 1, whole(100, 100), whole(0, 0)),
        body(1, 2, whole(110, 100), whole(0, 0)),
        body(2, 4, whole(100, 120), whole(0, 0)),
    ];
    let mut expected = bodies.clone();
    assert_eq!(apply_gravity(&mut bodies, Fixed::one()), Ok(()));
    for (i, j) in [(0, 1), (0, 2), (1, 2)] {
        let (on_first, on_second) = grav_force(&expected[i], &expected[j], Fixed::one()).unwrap();
        expected[i].add_force(on_first);
        expected[j].add_force(on_second);
    }
    assert_eq!(bodies, expected);
    assert_eq!(bodies[0].velocity(), vec2(20_000_000, 10_000_000));
    assert_eq!(bodies[1].velocity(), vec2(-13_577_708, 7_155_417));
    assert_eq!(bodies[2].velocity(), vec2(1_788_854, -6_077_708));
    assert_eq!(bodies[0].pos(), whole(100, 100));
    assert_eq!(bodies[1].pos(), whole(110, 100));
    assert_eq!(bodies[2].pos(), whole(100, 120));
}

#[test]
fn apply_gravity_of_four_bodies_pulls_six_times() {
    // Four bodies on a line, ten apart: six pairs, each pulling once.
    let mut bodies: Vec<Planet> =
        (0..4).map(|k| body(k, 1, whole(10 * i64::from(k), 0), whole(0, 0))).collect();
    let mut expected = bodies.clone();
    assert_eq!(apply_gravity(&mut bodies, Fixed::one()), Ok(()));
    let mut pulls = 0;
    for i in 0..4 {
        for j in (i + 1)..4 {
            let (on_first, on_second) =
                grav_force(&expected[i], &expected[j], Fixed::one()).unwrap();
            expected[i].add_force(on_first);
            expected[j].add_force(on_second);
            pulls += 1;
        }
    }
    assert_eq!(pulls, 4 * 3 / 2);
    assert_eq!(bodies, expected);
    // 1/100 + 1/400 + 1/900 toward the others, each term rounded toward zero.
    assert_eq!(bodies[0].velocity(), vec2(13_611_110, 0));
    assert_eq!(bodies[3].velocity(), vec2(-13_611_110, 0));
    assert_eq!(bodies[1].velocity().x.raw(), -bodies[2].velocity().x.raw());
}

#[test]
fn apply_gravity_reports_bodies_at_one_place_and_pulls_the_rest() {
    let mut bodies = vec![
        body(0, 1, whole(0, 0), whole(0, 0)),
        body(1, 1, whole(0, 0), whole(0, 0)),
        body(2, 1, whole(10, 0), whole(0, 0)),
    ];
    assert_eq!(apply_gravity(&mut bodies, Fixed::one()), Err(DegenerateVector));
    assert_eq!(bodies[0].velocity(), vec2(10_000_000, 0));
    assert_eq!(bodies[1].velocity(), vec2(10_000_000, 0));
    assert_eq!(bodies[2].velocity(), vec2(-20_000_000, 0));
}

#[test]
fn tick_reports_bodies_at_one_place() {
    let (bounds, centre) = arena();
    let mut rng = StdRng::seed_from_u64(37);
    let mut bodies = vec![
        body(0, 1, whole(50, 50), whole(1, 0)),
        body(1, 1, whole(52, 50), whole(-1, 0)),
    ];
    // After the move both are at 51.
    assert_eq!(
        tick(&mut bodies, Fixed::one(), bounds, centre, Fixed::one(), &mut rng),
        Err(DegenerateVector)
    );
    assert_eq!(bodies[0].pos(), whole(51, 50));
    assert_eq!(bodies[1].pos(), whole(51, 50));
    assert_eq!(bodies[0].velocity(), whole(1, 0));
    assert_eq!(bodies[1].velocity(), whole(-1, 0));
}
