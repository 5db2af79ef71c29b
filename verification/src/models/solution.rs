//! Solution domain models.

pub mod route;
pub mod tour;

pub use self::route::{Activity, Commute, Place, Route};
pub use self::tour::Tour;
