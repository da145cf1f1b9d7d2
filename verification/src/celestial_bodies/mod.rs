//! Bodies and the configuration they are generated from.
pub mod body_config;
pub mod planet;
