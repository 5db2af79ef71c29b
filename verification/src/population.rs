//! Populations of solutions.

pub mod elitism;
pub mod example;
pub mod objective;
pub mod rosomaxa;

pub use self::elitism::Elitism;
pub use self::rosomaxa::{Rosomaxa, RosomaxaConfig};
