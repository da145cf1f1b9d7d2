use nbody::celestial_bodies::body_config::{ConfigError, PlanetConfig};
use nbody::utils::fixed::{Fixed, SCALE};

fn fx(raw: i64) -> Fixed {
    Fixed::from_raw(raw)
}

#[test]
fn new_keeps_valid_parameters() {
    let config = PlanetConfig::new(
        fx(-400 * SCALE),
        fx(400 * SCALE),
        fx(50 * SCALE),
        fx(10 * SCALE),
        fx(3 * SCALE),
        fx(1_000_000),
    )
    .unwrap();
    assert_eq!(config.lower_pos_bound().raw(), -400 * SCALE);
    assert_eq!(config.upper_pos_bound().raw(), 400 * SCALE);
    assert_eq!(config.velocity_bound().raw(), 50 * SCALE);
    assert_eq!(config.mass_mean().raw(), 10 * SCALE);
    assert_eq!(config.mass_std().raw(), 3 * SCALE);
    assert_eq!(config.mass_to_size().raw(), 1_000_000);
}

#[test]
fn new_accepts_a_standard_deviation_of_zero() {
    let config = PlanetConfig::new(fx(0), fx(1), fx(1), fx(0), fx(0), fx(0));
    assert!(config.is_ok());
}

#[test]
fn new_refuses_an_empty_position_range() {
    let equal = PlanetConfig::new(fx(5), fx(5), fx(1), fx(1), fx(1), fx(1));
    assert_eq!(equal, Err(ConfigError::EmptyPositionRange));
    let reversed = PlanetConfig::new(fx(6), fx(5), fx(1), fx(1), fx(1), fx(1));
    assert_eq!(reversed, Err(ConfigError::EmptyPositionRange));
}

#[test]
fn new_refuses_an_empty_velocity_range() {
    let zero = PlanetConfig::new(fx(0), fx(5), fx(0), fx(1), fx(1), fx(1));
    assert_eq!(zero, Err(ConfigError::EmptyVelocityRange));
    let negative = PlanetConfig::new(fx(0), fx(5), fx(-1), fx(1), fx(1), fx(1));
    assert_eq!(negative, Err(ConfigError::EmptyVelocityRange));
}

#[test]
fn new_refuses_a_negative_standard_deviation() {
    let config = PlanetConfig::new(fx(0), fx(5), fx(1), fx(1), fx(-1), fx(1));
    assert_eq!(config, Err(ConfigError::NegativeMassDeviation));
}

#[test]
fn new_reports_the_first_fault() {
    let all = PlanetConfig::new(fx(5), fx(0), fx(0), fx(1), fx(-1), fx(1));
    assert_eq!(all, Err(ConfigError::EmptyPositionRange));
    let two = PlanetConfig::new(fx(0), fx(5), fx(0), fx(1), fx(-1), fx(1));
    assert_eq!(two, Err(ConfigError::EmptyVelocityRange));
}
