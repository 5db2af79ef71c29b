//! An adaptive population manager for evolutionary search over routing
//! solutions: an archive of the best solutions, a growing self-organizing
//! map of the others, and the phases that steer the search between them.
//! With it come the routing solution model, its report, and the estimates
//! by which jobs are grouped into clusters.

pub mod algorithms;
pub mod construction;
pub mod extensions;
pub mod format;
pub mod models;
pub mod population;
pub mod solver;
pub mod utils;

pub use crate::format::solution::writer::create_solution;
pub use crate::models::solution::{Activity, Commute, Place, Route, Tour};
pub use crate::population::{Elitism, Rosomaxa, RosomaxaConfig};
pub use crate::solver::objectives::TourOrder;
