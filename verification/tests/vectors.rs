use nbody::utils::array_logic::{
    add_arrays, dot_product, scalar_mult, subtract_arrays, DegenerateVector, Length, Normalise,
    Vec2,
};
use nbody::utils::fixed::{Fixed, LIMIT, SCALE};

fn fx(raw: i64) -> Fixed {
    Fixed::from_raw(raw)
}

fn vec2(x: i64, y: i64) -> Vec2 {
    Vec2::new(fx(x), fx(y))
}

fn whole(x: i64, y: i64) -> Vec2 {
    vec2(x * SCALE, y * SCALE)
}

#[test]
fn new_and_zero() {
    let v = Vec2::new(fx(3), fx(-4));
    assert_eq!(v.x.raw(), 3);
    assert_eq!(v.y.raw(), -4);
    assert_eq!(Vec2::zero(), vec2(0, 0));
}

#[test]
fn add_arrays_adds_component_by_component() {
    assert_eq!(add_arrays(whole(1, 2), whole(3, 4)), whole(4, 6));
    assert_eq!(add_arrays(whole(-1, 2), whole(1, -2)), whole(0, 0));
}

#[test]
fn add_arrays_saturates_each_component_alone() {
    assert_eq!(add_arrays(vec2(LIMIT, 5), vec2(1, 6)), vec2(LIMIT, 11));
}

#[test]
fn subtract_arrays_subtracts_component_by_component() {
    assert_eq!(subtract_arrays(whole(1, 2), whole(3, 5)), whole(-2, -3));
}

#[test]
fn scalar_mult_scales_both_components() {
    assert_eq!(scalar_mult(vec2(1_500_000_000, -2 * SCALE), fx(2 * SCALE)), whole(3, -4));
    assert_eq!(scalar_mult(whole(3, -4), Fixed::zero()), whole(0, 0));
}

#[test]
fn dot_product_of_two_vectors() {
    assert_eq!(dot_product(whole(1, 2), whole(3, 4)).raw(), 11 * SCALE);
    assert_eq!(dot_product(whole(1, 0), whole(0, 1)).raw(), 0);
    assert_eq!(dot_product(whole(-2, 3), whole(-2, 3)).raw(), 13 * SCALE);
}

#[test]
fn negate_negates_both_components() {
    assert_eq!(whole(3, -4).negate(), whole(-3, 4));
    assert_eq!(vec2(LIMIT, -LIMIT).negate(), vec2(-LIMIT, LIMIT));
}

#[test]
fn get_length_of_pythagorean_vectors() {
    assert_eq!(whole(3, 4).get_length().raw(), 5 * SCALE);
    assert_eq!(whole(-7, 24).get_length().raw(), 25 * SCALE);
    assert_eq!(whole(0, 0).get_length().raw(), 0);
}

#[test]
fn get_length_rounds_down() {
    assert_eq!(whole(1, 1).get_length().raw(), 1_414_213_562);
}

#[test]
fn normalise_scales_by_the_inverse_length() {
    assert_eq!(whole(3, 4).normalise(), Ok(vec2(600_000_000, 800_000_000)));
    assert_eq!(whole(-10, 0).normalise(), Ok(whole(-1, 0)));
    assert_eq!(whole(1, 2).normalise(), Ok(vec2(447_213_595, 894_427_190)));
}

#[test]
fn normalise_of_the_zero_vector_fails() {
    assert_eq!(whole(0, 0).normalise(), Err(DegenerateVector));
}

#[test]
fn normalise_of_a_vector_too_short_to_measure_fails() {
    // Both squares round to zero, so the length is zero.
    assert_eq!(vec2(31_622, -31_622).get_length().raw(), 0);
    assert_eq!(vec2(31_622, -31_622).normalise(), Err(DegenerateVector));
    assert!(vec2(31_623, 0).normalise().is_ok());
}

#[test]
fn normalise_twice_is_normalise_once_where_the_length_is_one() {
    let once = whole(3, 4).normalise().unwrap();
    assert_eq!(once.get_length().raw(), SCALE);
    assert_eq!(once.normalise(), Ok(once));
    let axis = whole(0, -8).normalise().unwrap();
    assert_eq!(axis, whole(0, -1));
    assert_eq!(axis.normalise(), Ok(axis));
}

#[test]
fn normalise_twice_stays_within_a_unit_where_the_length_is_rounded() {
    let once = whole(1, 2).normalise().unwrap();
    let twice = once.normalise().unwrap();
    assert_eq!(twice, vec2(447_213_595, 894_427_191));
    assert!((twice.x.raw() - once.x.raw()).abs() <= 1);
    assert!((twice.y.raw() - once.y.raw()).abs() <= 1);
    for (x, y) in [(-400, 399), (123, 456), (600, 800), (999, 1), (-7, 0)] {
        let once = whole(x, y).normalise().unwrap();
        let twice = once.normalise().unwrap();
        assert!((twice.x.raw() - once.x.raw()).abs() <= 4_004, "({x}, {y})");
        assert!((twice.y.raw() - once.y.raw()).abs() <= 4_004, "({x}, {y})");
    }
}

#[test]
fn length_of_a_normalised_vector_is_close_to_one() {
    let unit = whole(1, 2).normalise().unwrap();
    assert_eq!(unit.get_length().raw(), 999_999_998);
    for (x, y) in [(1, 0), (5, -12), (-400, 399), (123, 456), (-1, -1), (600, 800), (999, 1)] {
        let length = whole(x, y).normalise().unwrap().get_length().raw();
        assert!(SCALE - 4_002 <= length && length <= SCALE + 2, "({x}, {y}) gave {length}");
    }
}
