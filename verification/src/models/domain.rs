//! A problem as far as a report needs it, and a solution of it.

use vstd::prelude::*;
use crate::models::common::GeoLocation;
use crate::models::problem::{Job, JobView, MatrixTransport};
use crate::models::solution::route::{Route, RouteView};

verus! {

/// What a report reads of the problem that was solved.
#[derive(Debug, PartialEq, Eq)]
pub struct Problem {
    /// Travel durations and distances.
    pub transport: MatrixTransport,
    /// The place on the map of each location of the routing matrix.
    pub coord_index: Vec<GeoLocation>,
    /// Whether capacities have one dimension (`single`) or several (`multi`).
    pub capacity_type: Option<String>,
}

/// A solution: routes, and the jobs that no route serves, each with the code
/// of the reason.
#[derive(Debug, PartialEq, Eq)]
pub struct Solution {
    /// The routes.
    pub routes: Vec<Route>,
    /// The unassigned jobs with the code of the reason.
    pub unassigned: Vec<(Job, i32)>,
}

/// The view of [`Solution`].
pub struct SolutionView {
    pub routes: Seq<RouteView>,
    pub unassigned: Seq<(JobView, i32)>,
}

impl View for Solution {
    type V = SolutionView;

    open spec fn view(&self) -> SolutionView {
        SolutionView {
            routes: Seq::new(self.routes@.len(), |i: int| self.routes@[i]@),
            unassigned: Seq::new(
                self.unassigned@.len(),
                |i: int| (self.unassigned@[i].0@, self.unassigned@[i].1),
            ),
        }
    }
}

} // verus!
