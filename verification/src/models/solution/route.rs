//! Routes and the activities performed on them.

use vstd::prelude::*;
use crate::models::common::{Distance, Duration, Location, Schedule, TimeWindow};
use crate::models::problem::{same_job, Actor, ActorView, Job, JobView, Single, SingleView};
use crate::models::solution::tour::{tour_view, Tour};

verus! {

/// Extra commute that is needed to reach the actual place of an activity and
/// to get back from it.
#[derive(Clone, Copy, Debug, PartialEq, Eq)]
pub struct Commute {
    /// Distance and duration of the way to the place.
    pub forward: (Distance, Duration),
    /// Distance and duration of the way out of the place.
    pub backward: (Distance, Duration),
}

/// Where and when an activity is performed.
#[derive(Clone, Copy, Debug, PartialEq, Eq)]
pub struct Place {
    /// Location where the activity is performed.
    pub location: Location,
    /// The activity's duration.
    pub duration: Duration,
    /// The interval in which the activity may start.
    pub time: TimeWindow,
}

/// An activity that is performed on a tour.
#[derive(Debug, PartialEq, Eq)]
pub struct Activity {
    /// The activity's place.
    pub place: Place,
    /// The activity's schedule, commute included.
    pub schedule: Schedule,
    /// The job that is served, none at the start and the end of a tour. Where
    /// the job is part of a job of several parts, `retrieve_job` gives the
    /// latter.
    pub job: Option<Single>,
    /// Extra commute to the place.
    pub commute: Option<Commute>,
}

/// The view of [`Activity`].
pub struct ActivityView {
    pub place: Place,
    pub schedule: Schedule,
    pub job: Option<SingleView>,
    pub commute: Option<Commute>,
}

impl View for Activity {
    type V = ActivityView;

    open spec fn view(&self) -> ActivityView {
        ActivityView {
            place: self.place,
            schedule: self.schedule,
            job: match self.job {
                Some(s) => Some(s@),
                None => None,
            },
            commute: self.commute,
        }
    }
}

/// A tour with the actor that performs it.
#[derive(Debug, PartialEq, Eq)]
pub struct Route {
    /// The actor of the route.
    pub actor: Actor,
    /// The tour of the route.
    pub tour: Tour,
}

/// The view of [`Route`].
pub struct RouteView {
    pub actor: ActorView,
    pub tour: Seq<ActivityView>,
}

impl View for Route {
    type V = RouteView;

    open spec fn view(&self) -> RouteView {
        RouteView { actor: self.actor@, tour: tour_view(self.tour.activities@) }
    }
}

impl Route {
    /// Returns a deep copy of the route.
    pub fn deep_copy(&self) -> (r: Self)
        ensures
            r@ == self@,
    {
        Route { actor: self.actor.copy(), tour: self.tour.deep_copy() }
    }
}

/// The job that an activity stands for: the job of several parts where its
/// single job belongs to one, else the single job, none without a job.
pub open spec fn activity_job(activity: ActivityView) -> Option<JobView> {
    match activity.job {
        Some(single) => match single.root {
            Some(multi) => Some(JobView::Multi(multi)),
            None => Some(JobView::Single(single)),
        },
        None => None,
    }
}

impl Activity {
    /// Creates an activity with a job: at location zero, without duration,
    /// with the widest time window and a schedule at time zero.
    pub fn new_with_job(job: Single) -> (r: Self)
        ensures
            r@ == (ActivityView {
                place: Place {
                    location: 0,
                    duration: 0,
                    time: TimeWindow { start: 0, end: i64::MAX },
                },
                schedule: Schedule { arrival: 0, departure: 0 },
                job: Some(job@),
                commute: None,
            }),
    {
        Activity {
            place: Place { location: 0, duration: 0, time: TimeWindow { start: 0, end: i64::MAX } },
            schedule: Schedule { arrival: 0, departure: 0 },
            job: Some(job),
            commute: None,
        }
    }

    /// Creates a deep copy of the activity.
    pub fn deep_copy(&self) -> (r: Self)
        ensures
            r@ == self@,
    {
        let job = match &self.job {
            Some(single) => Some(single.copy()),
            None => None,
        };
        Activity {
            place: Place {
                location: self.place.location,
                duration: self.place.duration,
                time: self.place.time,
            },
            schedule: self.schedule,
            job,
            commute: self.commute,
        }
    }

    /// Checks whether the activity stands for the given job.
    pub fn has_same_job(&self, job: &Job) -> (r: bool)
        ensures
            r == match activity_job(self@) {
                Some(own) => same_job(own, job@),
                None => false,
            },
    {
        match self.retrieve_job() {
            Some(own) => match (&own, job) {
                (Job::Multi(lhs), Job::Multi(rhs)) => lhs.index == rhs.index,
                (Job::Single(lhs), Job::Single(rhs)) => lhs.index == rhs.index,
                _ => false,
            },
            None => false,
        }
    }

    /// Returns the job that the activity stands for, if it has one.
    pub fn retrieve_job(&self) -> (r: Option<Job>)
        ensures
            match r {
                Some(job) => activity_job(self@) == Some(job@),
                None => activity_job(self@).is_none(),
            },
    {
        match &self.job {
            Some(single) => match &single.root {
                Some(multi) => Some(Job::Multi(multi.copy())),
                None => Some(Job::Single(single.copy())),
            },
            None => None,
        }
    }
}

impl Commute {
    /// Checks whether the commute takes no time, neither way.
    pub fn is_zero_time(&self) -> (r: bool)
        ensures
            r == (self.forward.1 == 0 && self.backward.1 == 0),
    {
        self.forward.1 == 0 && self.backward.1 == 0
    }
}

} // verus!
