//! The search for solutions.

pub mod builder;
pub mod objectives;

pub use self::builder::Builder;
