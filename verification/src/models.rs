//! The routing model that solutions are reported from.

pub mod common;
pub mod domain;
pub mod problem;
pub mod solution;

pub use self::domain::{Problem, Solution};
