//! Objectives and constraints of the search.

pub mod tour_order;

pub use self::tour_order::TourOrder;
