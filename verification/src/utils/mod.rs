//! Numbers, vectors, colours, random draws and the force model.
pub mod array_logic;
pub mod colour;
pub mod fixed;
pub mod physics;
pub mod unit_length;
pub mod random;
