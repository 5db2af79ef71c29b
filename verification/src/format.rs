//! The report of a solution.

pub mod solution;
pub mod time;
