//! The reported form of a solution.

use vstd::prelude::*;
use crate::models::common::{clamp_i64, plus, GeoLocation};

verus! {

/// How the time of a tour is spent, in seconds.
#[derive(Clone, Copy, Debug, PartialEq, Eq)]
pub struct Timing {
    /// Time spent driving.
    pub driving: i64,
    /// Time spent serving jobs.
    pub serving: i64,
    /// Time spent waiting.
    pub waiting: i64,
    /// Time spent on breaks.
    pub break_time: i64,
    /// Time spent commuting.
    pub commuting: i64,
}

/// The totals of a tour or of a solution.
#[derive(Clone, Copy, Debug, PartialEq, Eq)]
pub struct Statistic {
    /// Total cost.
    pub cost: i64,
    /// Total distance.
    pub distance: i64,
    /// Total duration.
    pub duration: i64,
    /// How the duration is spent.
    pub times: Timing,
}

/// The statistic with every total at zero.
pub open spec fn zero_statistic() -> Statistic {
    Statistic {
        cost: 0,
        distance: 0,
        duration: 0,
        times: Timing { driving: 0, serving: 0, waiting: 0, break_time: 0, commuting: 0 },
    }
}

/// Fieldwise saturating sum of two statistics.
pub open spec fn statistic_sum(a: Statistic, b: Statistic) -> Statistic {
    Statistic {
        cost: clamp_i64(a.cost + b.cost) as i64,
        distance: clamp_i64(a.distance + b.distance) as i64,
        duration: clamp_i64(a.duration + b.duration) as i64,
        times: Timing {
            driving: clamp_i64(a.times.driving + b.times.driving) as i64,
            serving: clamp_i64(a.times.serving + b.times.serving) as i64,
            waiting: clamp_i64(a.times.waiting + b.times.waiting) as i64,
            break_time: clamp_i64(a.times.break_time + b.times.break_time) as i64,
            commuting: clamp_i64(a.times.commuting + b.times.commuting) as i64,
        },
    }
}

impl Default for Timing {
    fn default() -> (r: Self)
        ensures
            r == zero_statistic().times,
    {
        Timing { driving: 0, serving: 0, waiting: 0, break_time: 0, commuting: 0 }
    }
}

impl Default for Statistic {
    fn default() -> (r: Self)
        ensures
            r == zero_statistic(),
    {
        Statistic {
            cost: 0,
            distance: 0,
            duration: 0,
            times: Timing { driving: 0, serving: 0, waiting: 0, break_time: 0, commuting: 0 },
        }
    }
}

impl Statistic {
    /// Fieldwise saturating sum.
    pub fn plus(&self, other: &Statistic) -> (r: Statistic)
        ensures
            r == statistic_sum(*self, *other),
    {
        Statistic {
            cost: plus(self.cost, other.cost),
            distance: plus(self.distance, other.distance),
            duration: plus(self.duration, other.duration),
            times: Timing {
                driving: plus(self.times.driving, other.times.driving),
                serving: plus(self.times.serving, other.times.serving),
                waiting: plus(self.times.waiting, other.times.waiting),
                break_time: plus(self.times.break_time, other.times.break_time),
                commuting: plus(self.times.commuting, other.times.commuting),
            },
        }
    }
}

/// Arrival and departure at a stop, as text.
#[derive(Debug, PartialEq, Eq)]
pub struct Schedule {
    /// Arrival time.
    pub arrival: String,
    /// Departure time.
    pub departure: String,
}

/// The view of [`Schedule`].
pub struct ScheduleView {
    pub arrival: Seq<char>,
    pub departure: Seq<char>,
}

impl View for Schedule {
    type V = ScheduleView;

    open spec fn view(&self) -> ScheduleView {
        ScheduleView { arrival: self.arrival@, departure: self.departure@ }
    }
}

/// A time interval, as text.
#[derive(Debug, PartialEq, Eq)]
pub struct Interval {
    /// Start of the interval.
    pub start: String,
    /// End of the interval.
    pub end: String,
}

/// The view of [`Interval`].
pub struct IntervalView {
    pub start: Seq<char>,
    pub end: Seq<char>,
}

impl View for Interval {
    type V = IntervalView;

    open spec fn view(&self) -> IntervalView {
        IntervalView { start: self.start@, end: self.end@ }
    }
}

/// One way of a commute: its distance and its time.
#[derive(Debug, PartialEq, Eq)]
pub struct CommuteInfo {
    /// Commute distance.
    pub distance: i64,
    /// Commute time.
    pub time: Interval,
}

/// The view of [`CommuteInfo`].
pub struct CommuteInfoView {
    pub distance: i64,
    pub time: IntervalView,
}

impl View for CommuteInfo {
    type V = CommuteInfoView;

    open spec fn view(&self) -> CommuteInfoView {
        CommuteInfoView { distance: self.distance, time: self.time@ }
    }
}

/// The commute of an activity.
#[derive(Debug, PartialEq, Eq)]
pub struct Commute {
    /// The way to the place.
    pub forward: CommuteInfo,
    /// The way out of the place.
    pub backward: CommuteInfo,
}

/// The view of [`Commute`].
pub struct CommuteView {
    pub forward: CommuteInfoView,
    pub backward: CommuteInfoView,
}

impl View for Commute {
    type V = CommuteView;

    open spec fn view(&self) -> CommuteView {
        CommuteView { forward: self.forward@, backward: self.backward@ }
    }
}

/// An activity at a stop.
#[derive(Debug, PartialEq, Eq)]
pub struct Activity {
    /// The job's identifier, or the activity's type where it serves no job.
    pub job_id: String,
    /// The activity's type.
    pub activity_type: String,
    /// The activity's location, where it is worth telling.
    pub location: Option<GeoLocation>,
    /// The activity's time, where it is worth telling.
    pub time: Option<Interval>,
    /// The job's tag.
    pub job_tag: Option<String>,
    /// The activity's commute.
    pub commute: Option<Commute>,
}

/// The view of [`Activity`].
pub struct ActivityView {
    pub job_id: Seq<char>,
    pub activity_type: Seq<char>,
    pub location: Option<GeoLocation>,
    pub time: Option<IntervalView>,
    pub job_tag: Option<Seq<char>>,
    pub commute: Option<CommuteView>,
}

impl View for Activity {
    type V = ActivityView;

    open spec fn view(&self) -> ActivityView {
        ActivityView {
            job_id: self.job_id@,
            activity_type: self.activity_type@,
            location: self.location,
            time: match self.time {
                Some(t) => Some(t@),
                None => None,
            },
            job_tag: match self.job_tag {
                Some(t) => Some(t@),
                None => None,
            },
            commute: match self.commute {
                Some(c) => Some(c@),
                None => None,
            },
        }
    }
}

/// The views of a sequence of activities.
pub open spec fn activities_view(activities: Seq<Activity>) -> Seq<ActivityView> {
    Seq::new(activities.len(), |i: int| activities[i]@)
}

/// A stop of a tour with the activities performed at it.
#[derive(Debug, PartialEq, Eq)]
pub struct Stop {
    /// Where the vehicle stops.
    pub location: GeoLocation,
    /// When it arrives and leaves.
    pub time: Schedule,
    /// The distance travelled so far.
    pub distance: i64,
    /// The load on leaving.
    pub load: Vec<i32>,
    /// The activities at the stop.
    pub activities: Vec<Activity>,
}

/// The view of [`Stop`].
pub struct StopView {
    pub location: GeoLocation,
    pub time: ScheduleView,
    pub distance: i64,
    pub load: Seq<i32>,
    pub activities: Seq<ActivityView>,
}

impl View for Stop {
    type V = StopView;

    open spec fn view(&self) -> StopView {
        StopView {
            location: self.location,
            time: self.time@,
            distance: self.distance,
            load: self.load@,
            activities: activities_view(self.activities@),
        }
    }
}

/// The views of a sequence of stops.
pub open spec fn stops_view(stops: Seq<Stop>) -> Seq<StopView> {
    Seq::new(stops.len(), |i: int| stops[i]@)
}

/// The tour of one vehicle.
#[derive(Debug, PartialEq, Eq)]
pub struct Tour {
    /// The vehicle's identifier.
    pub vehicle_id: String,
    /// The identifier of the vehicle's type.
    pub type_id: String,
    /// The index of the vehicle's shift.
    pub shift_index: usize,
    /// The stops of the tour.
    pub stops: Vec<Stop>,
    /// The totals of the tour.
    pub statistic: Statistic,
}

/// The view of [`Tour`].
pub struct TourView {
    pub vehicle_id: Seq<char>,
    pub type_id: Seq<char>,
    pub shift_index: usize,
    pub stops: Seq<StopView>,
    pub statistic: Statistic,
}

impl View for Tour {
    type V = TourView;

    open spec fn view(&self) -> TourView {
        TourView {
            vehicle_id: self.vehicle_id@,
            type_id: self.type_id@,
            shift_index: self.shift_index,
            stops: stops_view(self.stops@),
            statistic: self.statistic,
        }
    }
}

/// The views of a sequence of tours.
pub open spec fn tours_view(tours: Seq<Tour>) -> Seq<TourView> {
    Seq::new(tours.len(), |i: int| tours[i]@)
}

/// Why a job is not assigned.
#[derive(Debug, PartialEq, Eq)]
pub struct UnassignedJobReason {
    /// A code of the reason.
    pub code: String,
    /// The reason in words.
    pub description: String,
}

/// A job that is not assigned to any tour.
#[derive(Debug, PartialEq, Eq)]
pub struct UnassignedJob {
    /// The job's identifier.
    pub job_id: String,
    /// Why it is not assigned.
    pub reasons: Vec<UnassignedJobReason>,
}

/// The view of [`UnassignedJobReason`].
pub struct UnassignedJobReasonView {
    pub code: Seq<char>,
    pub description: Seq<char>,
}

impl View for UnassignedJobReason {
    type V = UnassignedJobReasonView;

    open spec fn view(&self) -> UnassignedJobReasonView {
        UnassignedJobReasonView { code: self.code@, description: self.description@ }
    }
}

/// The view of [`UnassignedJob`].
pub struct UnassignedJobView {
    pub job_id: Seq<char>,
    pub reasons: Seq<UnassignedJobReasonView>,
}

impl View for UnassignedJob {
    type V = UnassignedJobView;

    open spec fn view(&self) -> UnassignedJobView {
        UnassignedJobView {
            job_id: self.job_id@,
            reasons: Seq::new(self.reasons@.len(), |i: int| self.reasons@[i]@),
        }
    }
}

/// The views of a sequence of unassigned jobs.
pub open spec fn unassigned_view(jobs: Seq<UnassignedJob>) -> Seq<UnassignedJobView> {
    Seq::new(jobs.len(), |i: int| jobs[i]@)
}

/// A rule that the solution breaks.
#[derive(Debug, PartialEq, Eq)]
pub enum Violation {
    /// A break that is not assigned.
    Break {
        /// The vehicle that misses its break.
        vehicle_id: String,
        /// The index of the vehicle's shift.
        shift_index: usize,
    },
}

/// The view of [`Violation`].
pub struct ViolationView {
    pub vehicle_id: Seq<char>,
    pub shift_index: usize,
}

impl View for Violation {
    type V = ViolationView;

    open spec fn view(&self) -> ViolationView {
        match self {
            Violation::Break { vehicle_id, shift_index } => ViolationView {
                vehicle_id: vehicle_id@,
                shift_index: *shift_index,
            },
        }
    }
}

/// The views of a sequence of violations.
pub open spec fn violations_view(violations: Seq<Violation>) -> Seq<ViolationView> {
    Seq::new(violations.len(), |i: int| violations[i]@)
}

/// One individual of a population, as the search saw it.
#[derive(Debug, PartialEq, Eq)]
pub struct Individual {
    /// The number of its tours.
    pub tours: usize,
    /// The number of its unassigned jobs.
    pub unassigned: usize,
    /// Its cost.
    pub cost: i64,
    /// Its improvement over the best known, in parts per million.
    pub improvement: i64,
    /// Its fitness.
    pub fitness: Vec<i64>,
}

/// The view of [`Individual`].
pub struct IndividualView {
    pub tours: usize,
    pub unassigned: usize,
    pub cost: i64,
    pub improvement: i64,
    pub fitness: Seq<i64>,
}

impl View for Individual {
    type V = IndividualView;

    open spec fn view(&self) -> IndividualView {
        IndividualView {
            tours: self.tours,
            unassigned: self.unassigned,
            cost: self.cost,
            improvement: self.improvement,
            fitness: self.fitness@,
        }
    }
}

/// The population of one generation.
#[derive(Debug, PartialEq, Eq)]
pub struct Population {
    /// Its individuals.
    pub individuals: Vec<Individual>,
}

/// One generation of the search.
#[derive(Debug, PartialEq, Eq)]
pub struct Generation {
    /// The generation's number.
    pub number: usize,
    /// Seconds since the search began.
    pub timestamp: i64,
    /// The share of improving generations, in parts per million.
    pub i_all_ratio: i64,
    /// The same share over the last thousand generations.
    pub i_1000_ratio: i64,
    /// Whether this generation improved on the best known.
    pub is_improvement: bool,
    /// The population at that time.
    pub population: Population,
}

/// The view of [`Generation`].
pub struct GenerationView {
    pub number: usize,
    pub timestamp: i64,
    pub i_all_ratio: i64,
    pub i_1000_ratio: i64,
    pub is_improvement: bool,
    pub individuals: Seq<IndividualView>,
}

impl View for Generation {
    type V = GenerationView;

    open spec fn view(&self) -> GenerationView {
        GenerationView {
            number: self.number,
            timestamp: self.timestamp,
            i_all_ratio: self.i_all_ratio,
            i_1000_ratio: self.i_1000_ratio,
            is_improvement: self.is_improvement,
            individuals: Seq::new(
                self.population.individuals@.len(),
                |i: int| self.population.individuals@[i]@,
            ),
        }
    }
}

/// How the search went.
#[derive(Debug, PartialEq, Eq)]
pub struct Metrics {
    /// Its duration in seconds.
    pub duration: usize,
    /// The number of its generations.
    pub generations: usize,
    /// Generations per second, in thousandths.
    pub speed: i64,
    /// The generations that were recorded.
    pub evolution: Vec<Generation>,
}

/// The view of [`Metrics`].
pub struct MetricsView {
    pub duration: usize,
    pub generations: usize,
    pub speed: i64,
    pub evolution: Seq<GenerationView>,
}

impl View for Metrics {
    type V = MetricsView;

    open spec fn view(&self) -> MetricsView {
        MetricsView {
            duration: self.duration,
            generations: self.generations,
            speed: self.speed,
            evolution: Seq::new(self.evolution@.len(), |i: int| self.evolution@[i]@),
        }
    }
}

/// What is reported beside the solution itself.
#[derive(Debug, PartialEq, Eq)]
pub struct Extras {
    /// How the search went.
    pub metrics: Option<Metrics>,
}

/// The view of [`Extras`].
pub struct ExtrasView {
    pub metrics: Option<MetricsView>,
}

impl View for Extras {
    type V = ExtrasView;

    open spec fn view(&self) -> ExtrasView {
        ExtrasView {
            metrics: match self.metrics {
                Some(metrics) => Some(metrics@),
                None => None,
            },
        }
    }
}

/// A solution as it is reported.
#[derive(Debug, PartialEq, Eq)]
pub struct Solution {
    /// The totals over all tours.
    pub statistic: Statistic,
    /// The tours.
    pub tours: Vec<Tour>,
    /// The jobs that are not assigned, if there are any.
    pub unassigned: Option<Vec<UnassignedJob>>,
    /// The rules that the solution breaks, if there are any.
    pub violations: Option<Vec<Violation>>,
    /// What is reported beside the solution.
    pub extras: Option<Extras>,
}

/// The view of [`Solution`].
pub struct SolutionView {
    pub statistic: Statistic,
    pub tours: Seq<TourView>,
    pub unassigned: Option<Seq<UnassignedJobView>>,
    pub violations: Option<Seq<ViolationView>>,
    pub extras: Option<ExtrasView>,
}

impl View for Solution {
    type V = SolutionView;

    open spec fn view(&self) -> SolutionView {
        SolutionView {
            statistic: self.statistic,
            tours: tours_view(self.tours@),
            unassigned: match self.unassigned {
                Some(jobs) => Some(unassigned_view(jobs@)),
                None => None,
            },
            violations: match self.violations {
                Some(violations) => Some(violations_view(violations@)),
                None => None,
            },
            extras: match self.extras {
                Some(extras) => Some(extras@),
                None => None,
            },
        }
    }
}

} // verus!
