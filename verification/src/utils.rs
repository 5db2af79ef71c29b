//! Utilities.

pub mod random;

pub use self::random::DefaultRandom;
