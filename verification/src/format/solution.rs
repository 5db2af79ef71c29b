//! Solutions as they are reported.

pub mod model;
pub mod writer;
