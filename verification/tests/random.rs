use nbody::utils::fixed::{Fixed, SCALE};
use nbody::utils::random::uniform;
use rand::rngs::StdRng;
use rand::SeedableRng;

fn fx(raw: i64) -> Fixed {
    Fixed::from_raw(raw)
}

#[test]
fn uniform_draws_from_the_range() {
    let mut rng = StdRng::seed_from_u64(1);
    for _ in 0..1_000 {
        let value = uniform(&mut rng, fx(-3 * SCALE), fx(5 * SCALE)).unwrap().raw();
        assert!(-3 * SCALE <= value && value < 5 * SCALE);
    }
}

#[test]
fn uniform_of_a_range_of_one_value_is_that_value() {
    let mut rng = StdRng::seed_from_u64(2);
    for _ in 0..100 {
        assert_eq!(uniform(&mut rng, fx(7), fx(8)).map(Fixed::raw), Some(7));
    }
}

#[test]
fn uniform_of_an_empty_range_is_none() {
    let mut rng = StdRng::seed_from_u64(3);
    assert_eq!(uniform(&mut rng, fx(5), fx(5)), None);
    assert_eq!(uniform(&mut rng, fx(6), fx(5)), None);
}

#[test]
fn uniform_does_not_hand_back_a_bound() {
    let mut rng = StdRng::seed_from_u64(4);
    let draws: Vec<i64> =
        (0..64).map(|_| uniform(&mut rng, fx(0), fx(1_000 * SCALE)).unwrap().raw()).collect();
    assert!(draws.iter().any(|&value| value != 0));
    assert!(draws.iter().any(|&value| value != draws[0]));
    assert!(draws.iter().any(|&value| value < 500 * SCALE));
    assert!(draws.iter().any(|&value| value >= 500 * SCALE));
}

#[test]
fn uniform_repeats_for_the_same_seed() {
    let mut one = StdRng::seed_from_u64(5);
    let mut other = StdRng::seed_from_u64(5);
    for _ in 0..32 {
        assert_eq!(
            uniform(&mut one, fx(-SCALE), fx(SCALE)),
            uniform(&mut other, fx(-SCALE), fx(SCALE))
        );
    }
}
