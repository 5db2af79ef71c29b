//! The sequence of activities of a route.

use vstd::prelude::*;
use crate::models::solution::route::{Activity, ActivityView};

verus! {

/// The activities of a route in the order in which they are performed.
#[derive(Debug, PartialEq, Eq)]
pub struct Tour {
    /// The activities, start first.
    pub activities: Vec<Activity>,
}

/// The views of a sequence of activities.
pub open spec fn tour_view(activities: Seq<Activity>) -> Seq<ActivityView> {
    Seq::new(activities.len(), |i: int| activities[i]@)
}

impl View for Tour {
    type V = Seq<ActivityView>;

    open spec fn view(&self) -> Seq<ActivityView> {
        tour_view(self.activities@)
    }
}

impl Tour {
    /// A tour of the given activities.
    pub fn new(activities: Vec<Activity>) -> (r: Self)
        ensures
            r.activities == activities,
    {
        Tour { activities }
    }

    /// The number of activities.
    pub fn total(&self) -> (r: usize)
        ensures
            r == self@.len(),
    {
        self.activities.len()
    }

    /// The first activity.
    pub fn start(&self) -> (r: Option<&Activity>)
        ensures
            self@.len() == 0 ==> r.is_none(),
            self@.len() > 0 ==> r == Some(&self.activities@[0]),
    {
        self.get(0)
    }

    /// The activity at the given position.
    pub fn get(&self, index: usize) -> (r: Option<&Activity>)
        ensures
            index >= self@.len() ==> r.is_none(),
            index < self@.len() ==> r == Some(&self.activities@[index as int]),
    {
        if index < self.activities.len() {
            Some(&self.activities[index])
        } else {
            None
        }
    }

    /// Returns a deep copy of the tour.
    pub fn deep_copy(&self) -> (r: Self)
        ensures
            r@ == self@,
    {
        let mut activities: Vec<Activity> = Vec::new();
        let mut i: usize = 0;
        while i < self.activities.len()
            invariant
                i <= self.activities@.len(),
                activities@.len() == i,
                forall|k: int| 0 <= k < i ==> activities@[k]@ == self.activities@[k]@,
            decreases self.activities@.len() - i,
        {
            activities.push(self.activities[i].deep_copy());
            i = i + 1;
        }
        assert(tour_view(activities@) =~= tour_view(self.activities@));
        Tour { activities }
    }
}

} // verus!
