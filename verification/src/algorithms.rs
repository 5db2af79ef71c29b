//! Algorithms that the population builds on.

pub mod gsom;
pub mod math;
pub mod sorting;
