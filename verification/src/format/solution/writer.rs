//! Builds the report of a solution.

use vstd::prelude::*;
use crate::format::solution::model::{
    stops_view, Activity as ApiActivity, ActivityView as ApiActivityView,
    Commute as ApiCommute, CommuteInfo, CommuteInfoView, CommuteView, Extras, ExtrasView,
    Generation,
    Individual, Interval, IntervalView, Metrics, MetricsView, Population, Schedule as ApiSchedule,
    ScheduleView, Solution as ApiSolution, SolutionView as ApiSolutionView, Statistic, Stop,
    StopView, Timing, Tour, TourView, UnassignedJob,
    UnassignedJobReason, UnassignedJobReasonView, UnassignedJobView, Violation, ViolationView,
};
use crate::format::time::{format_time, time_text};
use crate::models::common::{
    clamp_i64, load_difference, load_report, load_sum, minus, plus, times, Demand, GeoLocation,
    Location, MultiDimLoad, Schedule, SingleDimLoad, Timestamp,
};
use crate::models::domain::{Problem, Solution, SolutionView};
use crate::models::problem::{
    copy_text, job_dimens, Costs, DemandView, Dimensions, DimensionsView, Job, JobDemand,
    JobDemandView, JobView, Single, SingleView,
};
use crate::models::solution::route::{
    activity_job, Activity, ActivityView, Commute, Route, RouteView,
};

verus! {

/// Whether a text equals a literal.
pub fn text_is(text: &String, literal: &str) -> (r: bool)
    ensures
        r == (text@ == literal@),
{
    let other = String::from_str(literal);
    *text == other
}

/// The running state of a tour report between two parts of the tour: where
/// and when the vehicle was last, what it carries, and the totals so far.
pub struct Leg {
    pub last_detail: Option<(Location, Timestamp)>,
    pub load: Option<MultiDimLoad>,
    pub statistic: Statistic,
}

impl Leg {
    /// A state with the given parts.
    pub fn new(
        last_detail: Option<(Location, Timestamp)>,
        load: Option<MultiDimLoad>,
        statistic: Statistic,
    ) -> (r: Self)
        ensures
            r.last_detail == last_detail,
            r.load == load,
            r.statistic == statistic,
    {
        Leg { last_detail, load, statistic }
    }

    /// The state before the tour: nowhere yet, no load, all totals zero.
    pub fn empty() -> (r: Self)
        ensures
            r.last_detail.is_none(),
            r.load.is_none(),
            r.statistic == crate::format::solution::model::zero_statistic(),
    {
        Leg { last_detail: None, load: None, statistic: Statistic::default() }
    }
}

/// The type of an activity: that of its job, none without a job.
pub open spec fn activity_kind(activity: ActivityView) -> Option<Seq<char>> {
    match activity.job {
        Some(single) => single.dimens.kind,
        None => None,
    }
}

/// The type of an activity: that of its job, none without a job.
pub fn get_activity_type(activity: &Activity) -> (r: Option<&String>)
    ensures
        match r {
            Some(kind) => activity_kind(activity@) == Some(kind@),
            None => activity_kind(activity@).is_none(),
        },
{
    match &activity.job {
        Some(single) => match &single.dimens.kind {
            Some(kind) => Some(kind),
            None => None,
        },
        None => None,
    }
}

/// The text form of a schedule.
pub open spec fn schedule_text(schedule: Schedule) -> ScheduleView {
    ScheduleView {
        arrival: time_text(schedule.arrival as int),
        departure: time_text(schedule.departure as int),
    }
}

/// The text form of a schedule.
pub fn format_schedule(schedule: &Schedule) -> (r: ApiSchedule)
    ensures
        r@ == schedule_text(*schedule),
{
    ApiSchedule {
        arrival: format_time(schedule.arrival),
        departure: format_time(schedule.departure),
    }
}

/// A load of one dimension as one of several: no dimension where the amount
/// is zero.
pub open spec fn unit_load(value: i32) -> Seq<i32> {
    if value == 0 {
        Seq::<i32>::empty()
    } else {
        seq![value]
    }
}

/// The demand without any load.
pub open spec fn no_demand() -> DemandView {
    DemandView {
        pickup: (Seq::<i32>::empty(), Seq::<i32>::empty()),
        delivery: (Seq::<i32>::empty(), Seq::<i32>::empty()),
    }
}

/// The demand that a job's properties hold, in several dimensions: the demand
/// itself where capacities have several dimensions and the demand has too;
/// the one-dimensional demand widened where neither has; none otherwise.
pub open spec fn job_capacity(dimens: DimensionsView, is_multi_dimen: bool) -> Option<DemandView> {
    match dimens.demand {
        Some(JobDemandView::Multi(demand)) => if is_multi_dimen {
            Some(demand)
        } else {
            None
        },
        Some(JobDemandView::Single(demand)) => if is_multi_dimen {
            None
        } else {
            Some(
                DemandView {
                    pickup: (unit_load(demand.pickup.0.value), unit_load(demand.pickup.1.value)),
                    delivery: (
                        unit_load(demand.delivery.0.value),
                        unit_load(demand.delivery.1.value),
                    ),
                },
            )
        },
        None => None,
    }
}

fn create_capacity(capacity: SingleDimLoad) -> (r: MultiDimLoad)
    ensures
        r@ == unit_load(capacity.value),
{
    if capacity.value == 0 {
        MultiDimLoad::empty()
    } else {
        let mut data: Vec<i32> = Vec::new();
        data.push(capacity.value);
        assert(data@ =~= seq![capacity.value]);
        MultiDimLoad::new(data)
    }
}

/// The demand that a job's properties hold, in several dimensions.
pub fn get_capacity(dimens: &Dimensions, is_multi_dimen: bool) -> (r: Option<Demand<MultiDimLoad>>)
    ensures
        match r {
            Some(demand) => job_capacity(dimens@, is_multi_dimen) == Some(demand@),
            None => job_capacity(dimens@, is_multi_dimen).is_none(),
        },
{
    match &dimens.demand {
        Some(JobDemand::Multi(demand)) => {
            if is_multi_dimen {
                Some(
                    Demand {
                        pickup: (demand.pickup.0.copy(), demand.pickup.1.copy()),
                        delivery: (demand.delivery.0.copy(), demand.delivery.1.copy()),
                    },
                )
            } else {
                None
            }
        },
        Some(JobDemand::Single(demand)) => {
            if is_multi_dimen {
                None
            } else {
                Some(
                    Demand {
                        pickup: (
                            create_capacity(demand.pickup.0),
                            create_capacity(demand.pickup.1),
                        ),
                        delivery: (
                            create_capacity(demand.delivery.0),
                            create_capacity(demand.delivery.1),
                        ),
                    },
                )
            }
        },
        None => None,
    }
}

/// The demand of an activity: that of its job, none without a job or without
/// a demand in the right number of dimensions.
pub open spec fn activity_demand(activity: ActivityView, is_multi_dimen: bool) -> DemandView {
    match activity.job {
        Some(single) => match job_capacity(single.dimens, is_multi_dimen) {
            Some(demand) => demand,
            None => no_demand(),
        },
        None => no_demand(),
    }
}

/// The load after an activity: the load before it, less what the activity
/// delivers, plus what it picks up.
pub open spec fn load_after(
    current: Seq<i32>,
    activity: ActivityView,
    is_multi_dimen: bool,
) -> Seq<i32> {
    let demand = activity_demand(activity, is_multi_dimen);
    load_sum(
        load_sum(
            load_difference(load_difference(current, demand.delivery.0), demand.delivery.1),
            demand.pickup.0,
        ),
        demand.pickup.1,
    )
}

fn get_activity_demand(activity: &Activity, is_multi_dimen: bool) -> (r: Demand<MultiDimLoad>)
    ensures
        r@ == activity_demand(activity@, is_multi_dimen),
{
    let found = match &activity.job {
        Some(single) => get_capacity(&single.dimens, is_multi_dimen),
        None => None,
    };
    match found {
        Some(demand) => demand,
        None => Demand {
            pickup: (MultiDimLoad::empty(), MultiDimLoad::empty()),
            delivery: (MultiDimLoad::empty(), MultiDimLoad::empty()),
        },
    }
}

/// The load after an activity.
pub fn calculate_load(current: MultiDimLoad, act: &Activity, is_multi_dimen: bool) -> (r:
    MultiDimLoad)
    ensures
        r@ == load_after(current@, act@, is_multi_dimen),
{
    let demand = get_activity_demand(act, is_multi_dimen);
    current.minus(&demand.delivery.0).minus(&demand.delivery.1).plus(&demand.pickup.0).plus(
        &demand.pickup.1,
    )
}

/// Whether the capacity type of a problem names several dimensions.
pub fn has_multi_dimensional_capacity(capacity_type: &Option<String>) -> (r: bool)
    requires
        capacity_type.is_some(),
        capacity_type.unwrap()@ == "multi"@ || capacity_type.unwrap()@ == "single"@,
    ensures
        r == (capacity_type.unwrap()@ == "multi"@),
{
    match capacity_type {
        Some(name) => text_is(name, "multi"),
        None => false,
    }
}

/// Code of a job that no vehicle reaches within its time window.
pub const TIME_CONSTRAINT_CODE: i32 = 1;

/// Code of a job beyond the distance limit of every vehicle.
pub const DISTANCE_LIMIT_CONSTRAINT_CODE: i32 = 2;

/// Code of a job beyond the shift time of every vehicle.
pub const DURATION_LIMIT_CONSTRAINT_CODE: i32 = 3;

/// Code of a job that fits into no vehicle.
pub const CAPACITY_CONSTRAINT_CODE: i32 = 4;

/// Code of a break that cannot be assigned.
pub const BREAK_CONSTRAINT_CODE: i32 = 5;

/// Code of a job that needs a skill that no vehicle has.
pub const SKILL_CONSTRAINT_CODE: i32 = 6;

/// Code of a job that a relation locks.
pub const LOCKING_CONSTRAINT_CODE: i32 = 7;

/// Code of a job at a location that cannot be reached.
pub const REACHABLE_CONSTRAINT_CODE: i32 = 8;

/// The name of the reason with the given code.
pub open spec fn reason_code(code: i32) -> Seq<char> {
    if code == SKILL_CONSTRAINT_CODE {
        "SKILL_CONSTRAINT"@
    } else if code == TIME_CONSTRAINT_CODE {
        "TIME_WINDOW_CONSTRAINT"@
    } else if code == CAPACITY_CONSTRAINT_CODE {
        "CAPACITY_CONSTRAINT"@
    } else if code == REACHABLE_CONSTRAINT_CODE {
        "REACHABLE_CONSTRAINT"@
    } else if code == DISTANCE_LIMIT_CONSTRAINT_CODE {
        "MAX_DISTANCE_CONSTRAINT"@
    } else if code == DURATION_LIMIT_CONSTRAINT_CODE {
        "SHIFT_TIME_CONSTRAINT"@
    } else if code == BREAK_CONSTRAINT_CODE {
        "BREAK_CONSTRAINT"@
    } else if code == LOCKING_CONSTRAINT_CODE {
        "LOCKING_CONSTRAINT"@
    } else {
        "NO_REASON_FOUND"@
    }
}

/// The reason with the given code, in words.
pub open spec fn reason_description(code: i32) -> Seq<char> {
    if code == SKILL_CONSTRAINT_CODE {
        "cannot serve required skill"@
    } else if code == TIME_CONSTRAINT_CODE {
        "cannot be visited within time window"@
    } else if code == CAPACITY_CONSTRAINT_CODE {
        "does not fit into any vehicle due to capacity"@
    } else if code == REACHABLE_CONSTRAINT_CODE {
        "location unreachable"@
    } else if code == DISTANCE_LIMIT_CONSTRAINT_CODE {
        "cannot be assigned due to max distance constraint of vehicle"@
    } else if code == DURATION_LIMIT_CONSTRAINT_CODE {
        "cannot be assigned due to shift time constraint of vehicle"@
    } else if code == BREAK_CONSTRAINT_CODE {
        "break is not assignable"@
    } else if code == LOCKING_CONSTRAINT_CODE {
        "cannot be served due to relation lock"@
    } else {
        "unknown"@
    }
}

/// The name and the description of the reason with the given code.
pub fn map_code_reason(code: i32) -> (r: (&'static str, &'static str))
    ensures
        r.0@ == reason_code(code),
        r.1@ == reason_description(code),
{
    if code == SKILL_CONSTRAINT_CODE {
        ("SKILL_CONSTRAINT", "cannot serve required skill")
    } else if code == TIME_CONSTRAINT_CODE {
        ("TIME_WINDOW_CONSTRAINT", "cannot be visited within time window")
    } else if code == CAPACITY_CONSTRAINT_CODE {
        ("CAPACITY_CONSTRAINT", "does not fit into any vehicle due to capacity")
    } else if code == REACHABLE_CONSTRAINT_CODE {
        ("REACHABLE_CONSTRAINT", "location unreachable")
    } else if code == DISTANCE_LIMIT_CONSTRAINT_CODE {
        ("MAX_DISTANCE_CONSTRAINT", "cannot be assigned due to max distance constraint of vehicle")
    } else if code == DURATION_LIMIT_CONSTRAINT_CODE {
        ("SHIFT_TIME_CONSTRAINT", "cannot be assigned due to shift time constraint of vehicle")
    } else if code == BREAK_CONSTRAINT_CODE {
        ("BREAK_CONSTRAINT", "break is not assignable")
    } else if code == LOCKING_CONSTRAINT_CODE {
        ("LOCKING_CONSTRAINT", "cannot be served due to relation lock")
    } else {
        ("NO_REASON_FOUND", "unknown")
    }
}

/// The reported form of the first `count` unassigned jobs: those that are
/// bound to no vehicle, in their order, each with the one reason that its
/// code stands for.
pub open spec fn unassigned_report(jobs: Seq<(JobView, i32)>, count: int) -> Seq<UnassignedJobView>
    decreases count,
{
    if count <= 0 {
        Seq::<UnassignedJobView>::empty()
    } else {
        let before = unassigned_report(jobs, count - 1);
        let (job, code) = jobs[count - 1];
        if job_dimens(job).vehicle_id.is_none() {
            before.push(
                UnassignedJobView {
                    job_id: job_dimens(job).id.unwrap(),
                    reasons: seq![
                        UnassignedJobReasonView {
                            code: reason_code(code),
                            description: reason_description(code),
                        },
                    ],
                },
            )
        } else {
            before
        }
    }
}

/// Whether every unassigned job that is bound to no vehicle has an
/// identifier.
pub open spec fn unassigned_have_ids(jobs: Seq<(JobView, i32)>) -> bool {
    forall|i: int|
        0 <= i < jobs.len() && (#[trigger] job_dimens(jobs[i].0)).vehicle_id.is_none()
            ==> job_dimens(jobs[i].0).id.is_some()
}

/// The unassigned jobs of a solution as they are reported; none where there
/// is nothing to report.
pub fn create_unassigned(unassigned: &Vec<(Job, i32)>) -> (r: Option<Vec<UnassignedJob>>)
    requires
        unassigned_have_ids(Seq::new(unassigned@.len(), |i: int| (unassigned@[i].0@, unassigned@[i].1))),
    ensures
        ({
            let jobs = Seq::new(unassigned@.len(), |i: int| (unassigned@[i].0@, unassigned@[i].1));
            let report = unassigned_report(jobs, jobs.len() as int);
            match r {
                Some(list) => report.len() > 0
                    && crate::format::solution::model::unassigned_view(list@) == report,
                None => report.len() == 0,
            }
        }),
{
    let ghost jobs = Seq::new(unassigned@.len(), |i: int| (unassigned@[i].0@, unassigned@[i].1));
    let mut list: Vec<UnassignedJob> = Vec::new();
    let mut i: usize = 0;
    while i < unassigned.len()
        invariant
            i <= unassigned@.len(),
            jobs == Seq::new(unassigned@.len(), |k: int| (unassigned@[k].0@, unassigned@[k].1)),
            unassigned_have_ids(jobs),
            crate::format::solution::model::unassigned_view(list@) == unassigned_report(
                jobs,
                i as int,
            ),
        decreases unassigned@.len() - i,
    {
        let job = &unassigned[i].0;
        let code: i32 = unassigned[i].1;
        assert(jobs[i as int] == (job@, code));
        let dimens = job.dimens();
        if dimens.vehicle_id.is_none() {
            assert(job_dimens(jobs[i as int].0).vehicle_id.is_none());
            let (name, description) = map_code_reason(code);
            let id = match &dimens.id {
                Some(id) => id.clone(),
                None => String::from_str(""),
            };
            let mut reasons: Vec<UnassignedJobReason> = Vec::new();
            reasons.push(
                UnassignedJobReason {
                    code: String::from_str(name),
                    description: String::from_str(description),
                },
            );
            let entry = UnassignedJob { job_id: id, reasons };
            assert(entry@.reasons =~= seq![
                UnassignedJobReasonView {
                    code: reason_code(code),
                    description: reason_description(code),
                },
            ]);
            list.push(entry);
            assert(crate::format::solution::model::unassigned_view(list@) =~= unassigned_report(
                jobs,
                i as int,
            ).push(entry@));
        }
        i = i + 1;
    }
    if list.len() == 0 {
        None
    } else {
        Some(list)
    }
}

/// The reported form of the breaks among the first `count` unassigned jobs.
pub open spec fn violations_report(jobs: Seq<(JobView, i32)>, count: int) -> Seq<ViolationView>
    decreases count,
{
    if count <= 0 {
        Seq::<ViolationView>::empty()
    } else {
        let before = violations_report(jobs, count - 1);
        let dimens = job_dimens(jobs[count - 1].0);
        if dimens.kind == Some("break"@) {
            before.push(
                ViolationView {
                    vehicle_id: dimens.vehicle_id.unwrap(),
                    shift_index: dimens.shift_index.unwrap(),
                },
            )
        } else {
            before
        }
    }
}

/// Whether every unassigned break names its vehicle and its shift.
pub open spec fn breaks_have_vehicles(jobs: Seq<(JobView, i32)>) -> bool {
    forall|i: int|
        0 <= i < jobs.len() && (#[trigger] job_dimens(jobs[i].0)).kind == Some("break"@) ==> {
            &&& job_dimens(jobs[i].0).vehicle_id.is_some()
            &&& job_dimens(jobs[i].0).shift_index.is_some()
        }
}

/// The violations of a solution as they are reported: one for each break that
/// is not assigned; none where there is nothing to report.
pub fn create_violations(unassigned: &Vec<(Job, i32)>) -> (r: Option<Vec<Violation>>)
    requires
        breaks_have_vehicles(Seq::new(unassigned@.len(), |i: int| (unassigned@[i].0@, unassigned@[i].1))),
    ensures
        ({
            let jobs = Seq::new(unassigned@.len(), |i: int| (unassigned@[i].0@, unassigned@[i].1));
            let report = violations_report(jobs, jobs.len() as int);
            match r {
                Some(list) => report.len() > 0
                    && crate::format::solution::model::violations_view(list@) == report,
                None => report.len() == 0,
            }
        }),
{
    let ghost jobs = Seq::new(unassigned@.len(), |i: int| (unassigned@[i].0@, unassigned@[i].1));
    let mut list: Vec<Violation> = Vec::new();
    let mut i: usize = 0;
    while i < unassigned.len()
        invariant
            i <= unassigned@.len(),
            jobs == Seq::new(unassigned@.len(), |k: int| (unassigned@[k].0@, unassigned@[k].1)),
            breaks_have_vehicles(jobs),
            crate::format::solution::model::violations_view(list@) == violations_report(
                jobs,
                i as int,
            ),
        decreases unassigned@.len() - i,
    {
        let job = &unassigned[i].0;
        assert(jobs[i as int].0 == job@);
        let dimens = job.dimens();
        let is_break = match &dimens.kind {
            Some(kind) => text_is(kind, "break"),
            None => false,
        };
        if is_break {
            assert(job_dimens(jobs[i as int].0).kind == Some("break"@));
            let vehicle_id = match &dimens.vehicle_id {
                Some(id) => id.clone(),
                None => String::from_str(""),
            };
            let shift_index: usize = match dimens.shift_index {
                Some(index) => index,
                None => 0,
            };
            let entry = Violation::Break { vehicle_id, shift_index };
            list.push(entry);
            assert(crate::format::solution::model::violations_view(list@) =~= violations_report(
                jobs,
                i as int,
            ).push(entry@));
        }
        i = i + 1;
    }
    if list.len() == 0 {
        None
    } else {
        Some(list)
    }
}

fn copy_numbers(values: &Vec<i64>) -> (r: Vec<i64>)
    ensures
        r@ == values@,
{
    let mut out: Vec<i64> = Vec::new();
    let mut i: usize = 0;
    while i < values.len()
        invariant
            i <= values@.len(),
            out@ == values@.subrange(0, i as int),
        decreases values@.len() - i,
    {
        out.push(values[i]);
        i = i + 1;
        assert(out@ =~= values@.subrange(0, i as int));
    }
    assert(out@ =~= values@);
    out
}

fn copy_generation(generation: &Generation) -> (r: Generation)
    ensures
        r@ == generation@,
{
    let mut individuals: Vec<Individual> = Vec::new();
    let mut i: usize = 0;
    while i < generation.population.individuals.len()
        invariant
            i <= generation.population.individuals@.len(),
            individuals@.len() == i,
            forall|k: int|
                0 <= k < i ==> (#[trigger] individuals@[k])@
                    == generation.population.individuals@[k]@,
        decreases generation.population.individuals@.len() - i,
    {
        let individual = &generation.population.individuals[i];
        individuals.push(
            Individual {
                tours: individual.tours,
                unassigned: individual.unassigned,
                cost: individual.cost,
                improvement: individual.improvement,
                fitness: copy_numbers(&individual.fitness),
            },
        );
        i = i + 1;
    }
    let copy = Generation {
        number: generation.number,
        timestamp: generation.timestamp,
        i_all_ratio: generation.i_all_ratio,
        i_1000_ratio: generation.i_1000_ratio,
        is_improvement: generation.is_improvement,
        population: Population { individuals },
    };
    assert(copy@.individuals =~= generation@.individuals);
    copy
}

/// What is reported beside the solution: the metrics of the search, where
/// there are any.
pub fn create_extras(metrics: Option<&Metrics>) -> (r: Option<Extras>)
    ensures
        match metrics {
            Some(given) => r.is_some() && r.unwrap().metrics.is_some()
                && r.unwrap().metrics.unwrap()@ == given@,
            None => r.is_none(),
        },
{
    match metrics {
        Some(given) => {
            let mut evolution: Vec<Generation> = Vec::new();
            let mut i: usize = 0;
            while i < given.evolution.len()
                invariant
                    i <= given.evolution@.len(),
                    evolution@.len() == i,
                    forall|k: int|
                        0 <= k < i ==> (#[trigger] evolution@[k])@ == given.evolution@[k]@,
                decreases given.evolution@.len() - i,
            {
                evolution.push(copy_generation(&given.evolution[i]));
                i = i + 1;
            }
            let copy = Metrics {
                duration: given.duration,
                generations: given.generations,
                speed: given.speed,
                evolution,
            };
            assert(copy@.evolution =~= given@.evolution);
            Some(Extras { metrics: Some(copy) })
        },
        None => None,
    }
}


/// Where and when the vehicle was last, what it carries, and the totals so
/// far.
pub struct LegState {
    pub location: Location,
    pub departure: Timestamp,
    pub load: Seq<i32>,
    pub statistic: Statistic,
}

/// The stops reported so far and the state of the vehicle after them.
pub struct TourState {
    pub stops: Seq<StopView>,
    pub leg: LegState,
}

/// Whether an activity of this type serves a job under the job's own
/// identifier.
pub open spec fn is_job_kind(kind: Seq<char>) -> bool {
    kind == "pickup"@ || kind == "delivery"@ || kind == "replacement"@ || kind == "service"@
}

/// The identifier of a single job: its own, else that of the job of several
/// parts that it belongs to.
pub open spec fn job_identifier(single: SingleView) -> Option<Seq<char>> {
    match single.dimens.id {
        Some(id) => Some(id),
        None => match single.root {
            Some(multi) => multi.dimens.id,
            None => None,
        },
    }
}

/// The first position from `from` on at which `coords` holds `target`; the
/// length of `coords` where it holds it nowhere.
pub open spec fn first_index(coords: Seq<GeoLocation>, target: GeoLocation, from: int) -> int
    decreases coords.len() - from,
{
    if from < 0 || from >= coords.len() {
        coords.len() as int
    } else if coords[from] == target {
        from
    } else {
        first_index(coords, target, from + 1)
    }
}

/// A load of `size` dimensions, all zero.
pub open spec fn zero_load(size: nat) -> Seq<i32> {
    Seq::new(size, |i: int| 0i32)
}

/// The reported form of a commute around an activity that the vehicle reaches
/// at `arrival` and whose service ends at `departure`.
pub open spec fn commute_report(commute: Commute, arrival: int, departure: int) -> CommuteView {
    CommuteView {
        forward: CommuteInfoView {
            distance: commute.forward.0,
            time: IntervalView {
                start: time_text(arrival),
                end: time_text(clamp_i64(arrival + commute.forward.1)),
            },
        },
        backward: CommuteInfoView {
            distance: commute.backward.0,
            time: IntervalView {
                start: time_text(departure),
                end: time_text(clamp_i64(departure + commute.backward.1)),
            },
        },
    }
}

/// The numbers of one activity of a tour.
#[derive(Clone, Copy)]
pub struct Figures {
    /// Seconds of driving to the activity.
    pub driving: i64,
    /// When the vehicle is at the place, the commute to it done.
    pub activity_arrival: i64,
    /// When the service is over, before the commute back.
    pub activity_departure: i64,
    /// Seconds of waiting before the service.
    pub waiting: i64,
    /// Seconds of commuting, both ways.
    pub commuting: i64,
    /// The cost of the activity.
    pub cost: i64,
    /// The distance travelled when the activity is reached.
    pub distance: i64,
    /// Whether the vehicle has to move to a new stop for the activity.
    pub is_new_stop: bool,
}

/// The commute of an activity, zero both ways where it has none.
pub open spec fn commute_of(act: ActivityView) -> Commute {
    match act.commute {
        Some(c) => c,
        None => Commute { forward: (0, 0), backward: (0, 0) },
    }
}

/// The numbers of an activity that the vehicle comes to from `location`, with
/// `travelled` distance behind it.
pub open spec fn figures(
    problem: &Problem,
    costs: Costs,
    location: Location,
    travelled: i64,
    act: ActivityView,
) -> Figures {
    let commute = commute_of(act);
    let zero_time = commute.forward.1 == 0 && commute.backward.1 == 0;
    let activity_arrival = clamp_i64(act.schedule.arrival + commute.forward.1);
    let service_start = if activity_arrival >= act.place.time.start {
        activity_arrival
    } else {
        act.place.time.start as int
    };
    let waiting = clamp_i64(service_start - activity_arrival);
    let commuting = clamp_i64(commute.forward.1 + commute.backward.1);
    let serving_cost = clamp_i64(act.place.duration * costs.per_service_time);
    let transport_cost = if zero_time {
        problem.transport.spec_cost(costs, location, act.place.location)
    } else {
        clamp_i64(commuting * costs.per_service_time)
    };
    let same_location = location == act.place.location;
    Figures {
        driving: if zero_time {
            problem.transport.spec_duration(location, act.place.location) as i64
        } else {
            0
        },
        activity_arrival: activity_arrival as i64,
        activity_departure: clamp_i64(act.schedule.departure - commute.backward.1) as i64,
        waiting: waiting as i64,
        commuting: commuting as i64,
        cost: clamp_i64(
            clamp_i64(serving_cost + transport_cost) + clamp_i64(waiting * costs.per_waiting_time),
        ) as i64,
        distance: clamp_i64(
            clamp_i64(travelled + problem.transport.spec_distance(location, act.place.location))
                - commute.forward.0,
        ) as i64,
        is_new_stop: match act.commute {
            Some(_) => !same_location && zero_time,
            None => !same_location,
        },
    }
}

/// The type under which an activity is reported: that of its job, `arrival`
/// without one.
pub open spec fn reported_kind(act: ActivityView) -> Seq<char> {
    match activity_kind(act) {
        Some(k) => k,
        None => "arrival"@,
    }
}

/// The reported form of an activity with the given numbers.
pub open spec fn activity_report(problem: &Problem, act: ActivityView, numbers: Figures) -> ApiActivityView {
    let activity_type = reported_kind(act);
    ApiActivityView {
        job_id: if is_job_kind(activity_type) {
            job_identifier(act.job.unwrap()).unwrap()
        } else {
            activity_type
        },
        activity_type,
        location: if !numbers.is_new_stop && activity_type == "dispatch"@ {
            None
        } else {
            Some(problem.coord_index@[act.place.location as int])
        },
        time: Some(
            IntervalView {
                start: time_text(numbers.activity_arrival as int),
                end: time_text(numbers.activity_departure as int),
            },
        ),
        job_tag: match act.job {
            Some(single) => single.dimens.tag,
            None => None,
        },
        commute: match act.commute {
            Some(c) => Some(
                commute_report(c, act.schedule.arrival as int, numbers.activity_departure as int),
            ),
            None => None,
        },
    }
}

/// The totals after an activity with the given numbers.
pub open spec fn totals_after(
    statistic: Statistic,
    departure: Timestamp,
    act: ActivityView,
    numbers: Figures,
) -> Statistic {
    let is_break = reported_kind(act) == "break"@;
    Statistic {
        cost: clamp_i64(statistic.cost + numbers.cost) as i64,
        distance: numbers.distance,
        duration: clamp_i64(clamp_i64(statistic.duration + act.schedule.departure) - departure) as i64,
        times: Timing {
            driving: clamp_i64(statistic.times.driving + numbers.driving) as i64,
            serving: clamp_i64(
                statistic.times.serving + (if is_break {
                    0
                } else {
                    act.place.duration as int
                }),
            ) as i64,
            waiting: clamp_i64(statistic.times.waiting + numbers.waiting) as i64,
            break_time: clamp_i64(
                statistic.times.break_time + (if is_break {
                    act.place.duration as int
                } else {
                    0
                }),
            ) as i64,
            commuting: clamp_i64(statistic.times.commuting + numbers.commuting) as i64,
        },
    }
}

/// The load with which the vehicle comes to an activity: what it carries,
/// but nothing where the activity serves no job: a tour ends empty.
pub open spec fn load_before(load: Seq<i32>, act: ActivityView) -> Seq<i32> {
    if activity_kind(act).is_some() {
        load
    } else {
        zero_load(load.len())
    }
}

/// The state of a tour report after one more activity. The activity opens a
/// new stop where the vehicle has to move for it, joins the last stop
/// otherwise, and adds its cost, distance and times to the totals.
#[verifier::opaque]
pub open spec fn visit(
    problem: &Problem,
    costs: Costs,
    is_multi_dimen: bool,
    state: TourState,
    act: ActivityView,
) -> TourState {
    let leg = state.leg;
    let numbers = figures(problem, costs, leg.location, leg.statistic.distance, act);
    let prev_load = load_before(leg.load, act);
    let opened = if numbers.is_new_stop {
        state.stops.push(
            StopView {
                location: problem.coord_index@[act.place.location as int],
                time: schedule_text(act.schedule),
                distance: numbers.distance,
                load: load_report(prev_load),
                activities: Seq::<ApiActivityView>::empty(),
            },
        )
    } else {
        state.stops
    };
    let load = load_after(prev_load, act, is_multi_dimen);
    let last = opened[opened.len() - 1];
    let joined = StopView {
        location: last.location,
        time: ScheduleView {
            arrival: last.time.arrival,
            departure: time_text(act.schedule.departure as int),
        },
        distance: last.distance,
        load: load_report(load),
        activities: last.activities.push(activity_report(problem, act, numbers)),
    };
    TourState {
        stops: opened.update(opened.len() - 1, joined),
        leg: LegState {
            location: if commute_of(act).backward.1 > 0 {
                first_index(problem.coord_index@, last.location, 0) as usize
            } else {
                act.place.location
            },
            departure: act.schedule.departure,
            load,
            statistic: totals_after(leg.statistic, leg.departure, act, numbers),
        },
    }
}

/// Whether an activity can be reported: its location is on the map, and where
/// its type serves a job under the job's identifier, the job has one.
pub open spec fn activity_is_reportable(problem: &Problem, act: ActivityView) -> bool {
    &&& act.place.location < problem.coord_index@.len()
    &&& match activity_kind(act) {
        Some(kind) => is_job_kind(kind) ==> job_identifier(act.job.unwrap()).is_some(),
        None => true,
    }
}

fn find_location(coords: &Vec<GeoLocation>, target: &GeoLocation) -> (r: usize)
    ensures
        r == first_index(coords@, *target, 0),
{
    let mut i: usize = 0;
    while i < coords.len()
        invariant
            i <= coords@.len(),
            first_index(coords@, *target, 0) == first_index(coords@, *target, i as int),
        decreases coords@.len() - i,
    {
        if coords[i].lat == target.lat && coords[i].lng == target.lng {
            return i;
        }
        i = i + 1;
    }
    i
}

fn identifier_of(single: &Single) -> (r: String)
    requires
        job_identifier(single@).is_some(),
    ensures
        r@ == job_identifier(single@).unwrap(),
{
    match &single.dimens.id {
        Some(id) => id.clone(),
        None => match &single.root {
            Some(multi) => match &multi.dimens.id {
                Some(id) => id.clone(),
                None => String::from_str(""),
            },
            None => String::from_str(""),
        },
    }
}

fn report_commute(commute: &Commute, arrival: Timestamp, departure: Timestamp) -> (r: ApiCommute)
    ensures
        r@ == commute_report(*commute, arrival as int, departure as int),
{
    ApiCommute {
        forward: CommuteInfo {
            distance: commute.forward.0,
            time: Interval {
                start: format_time(arrival),
                end: format_time(plus(arrival, commute.forward.1)),
            },
        },
        backward: CommuteInfo {
            distance: commute.backward.0,
            time: Interval {
                start: format_time(departure),
                end: format_time(plus(departure, commute.backward.1)),
            },
        },
    }
}

fn get_commute(act: &Activity) -> (r: Commute)
    ensures
        r == commute_of(act@),
{
    match act.commute {
        Some(c) => c,
        None => Commute { forward: (0, 0), backward: (0, 0) },
    }
}

fn get_figures(
    problem: &Problem,
    costs: &Costs,
    location: Location,
    travelled: i64,
    act: &Activity,
) -> (r: Figures)
    ensures
        r == figures(problem, *costs, location, travelled, act@),
{
    let commute = get_commute(act);
    let zero_time = commute.is_zero_time();
    let activity_arrival = plus(act.schedule.arrival, commute.forward.1);
    let service_start = if activity_arrival >= act.place.time.start {
        activity_arrival
    } else {
        act.place.time.start
    };
    let waiting = minus(service_start, activity_arrival);
    let commuting = plus(commute.forward.1, commute.backward.1);
    let serving_cost = times(act.place.duration, costs.per_service_time);
    let transport_cost = if zero_time {
        problem.transport.cost(costs, location, act.place.location)
    } else {
        times(commuting, costs.per_service_time)
    };
    let same_location = location == act.place.location;
    Figures {
        driving: if zero_time {
            problem.transport.duration(location, act.place.location)
        } else {
            0
        },
        activity_arrival,
        activity_departure: minus(act.schedule.departure, commute.backward.1),
        waiting,
        commuting,
        cost: plus(plus(serving_cost, transport_cost), times(waiting, costs.per_waiting_time)),
        distance: minus(
            plus(travelled, problem.transport.distance(location, act.place.location)),
            commute.forward.0,
        ),
        is_new_stop: match act.commute {
            Some(_) => !same_location && zero_time,
            None => !same_location,
        },
    }
}

fn get_reported_kind(act: &Activity) -> (r: String)
    ensures
        r@ == reported_kind(act@),
{
    match get_activity_type(act) {
        Some(k) => k.clone(),
        None => String::from_str("arrival"),
    }
}

fn report_activity(problem: &Problem, act: &Activity, numbers: &Figures) -> (r: ApiActivity)
    requires
        activity_is_reportable(problem, act@),
    ensures
        r@ == activity_report(problem, act@, *numbers),
{
    proof {
        reveal_strlit("arrival");
        reveal_strlit("pickup");
        reveal_strlit("delivery");
        reveal_strlit("replacement");
        reveal_strlit("service");
    }
    let activity_type = get_reported_kind(act);
    let is_job = text_is(&activity_type, "pickup") || text_is(&activity_type, "delivery")
        || text_is(&activity_type, "replacement") || text_is(&activity_type, "service");
    assert(is_job == is_job_kind(activity_type@));
    assert(!is_job_kind("arrival"@)) by {
        assert("arrival"@.len() == 7 && "arrival"@[0] == 'a');
        assert("pickup"@.len() == 6);
        assert("delivery"@.len() == 8);
        assert("replacement"@.len() == 11);
        assert("service"@[0] == 's');
    }
    let job_id = if is_job {
        match &act.job {
            Some(single) => identifier_of(single),
            None => String::from_str(""),
        }
    } else {
        activity_type.clone()
    };
    let is_dispatch = text_is(&activity_type, "dispatch");
    ApiActivity {
        job_id,
        activity_type,
        location: if !numbers.is_new_stop && is_dispatch {
            None
        } else {
            Some(problem.coord_index[act.place.location])
        },
        time: Some(
            Interval {
                start: format_time(numbers.activity_arrival),
                end: format_time(numbers.activity_departure),
            },
        ),
        job_tag: match &act.job {
            Some(single) => copy_text(&single.dimens.tag),
            None => None,
        },
        commute: match &act.commute {
            Some(c) => Some(report_commute(c, act.schedule.arrival, numbers.activity_departure)),
            None => None,
        },
    }
}

fn get_totals_after(
    statistic: &Statistic,
    departure: Timestamp,
    act: &Activity,
    numbers: &Figures,
) -> (r: Statistic)
    ensures
        r == totals_after(*statistic, departure, act@, *numbers),
{
    let activity_type = get_reported_kind(act);
    let is_break = text_is(&activity_type, "break");
    let serving = act.place.duration;
    Statistic {
        cost: plus(statistic.cost, numbers.cost),
        distance: numbers.distance,
        duration: minus(plus(statistic.duration, act.schedule.departure), departure),
        times: Timing {
            driving: plus(statistic.times.driving, numbers.driving),
            serving: plus(statistic.times.serving, if is_break { 0 } else { serving }),
            waiting: plus(statistic.times.waiting, numbers.waiting),
            break_time: plus(statistic.times.break_time, if is_break { serving } else { 0 }),
            commuting: plus(statistic.times.commuting, numbers.commuting),
        },
    }
}

fn get_load_before(load: MultiDimLoad, act: &Activity) -> (r: MultiDimLoad)
    ensures
        r@ == load_before(load@, act@),
{
    if get_activity_type(act).is_some() {
        load
    } else {
        MultiDimLoad::zeros(load.load.len())
    }
}

fn visit_activity(
    problem: &Problem,
    costs: &Costs,
    is_multi_dimen: bool,
    stops: &mut Vec<Stop>,
    location: Location,
    departure: Timestamp,
    load: MultiDimLoad,
    statistic: Statistic,
    act: &Activity,
) -> (r: Leg)
    requires
        old(stops)@.len() > 0,
        activity_is_reportable(problem, act@),
    ensures
        r.last_detail.is_some(),
        r.load.is_some(),
        final(stops)@.len() > 0,
        visit(
            problem,
            *costs,
            is_multi_dimen,
            TourState {
                stops: stops_view(old(stops)@),
                leg: LegState { location, departure, load: load@, statistic },
            },
            act@,
        ) == (TourState {
            stops: stops_view(final(stops)@),
            leg: LegState {
                location: r.last_detail.unwrap().0,
                departure: r.last_detail.unwrap().1,
                load: r.load.unwrap()@,
                statistic: r.statistic,
            },
        }),
{
    reveal(visit);
    let ghost before = stops_view(stops@);
    let numbers = get_figures(problem, costs, location, statistic.distance, act);
    let prev_load = get_load_before(load, act);
    if numbers.is_new_stop {
        let stop = Stop {
            location: problem.coord_index[act.place.location],
            time: format_schedule(&act.schedule),
            distance: numbers.distance,
            load: prev_load.as_vec(),
            activities: Vec::new(),
        };
        assert(stop@.activities =~= Seq::<ApiActivityView>::empty());
        stops.push(stop);
        assert(stops_view(stops@) =~= before.push(stop@));
    }
    let ghost opened = stops_view(stops@);
    let new_load = calculate_load(prev_load, act, is_multi_dimen);
    let activity = report_activity(problem, act, &numbers);
    let last: usize = stops.len() - 1;
    let ghost last_before = stops@[last as int]@;
    assert(last_before == opened[opened.len() - 1]);
    stops[last].time.departure = format_time(act.schedule.departure);
    stops[last].load = new_load.as_vec();
    stops[last].activities.push(activity);
    let stop_location = stops[last].location;
    assert(stops@[last as int]@.activities =~= last_before.activities.push(activity@));
    assert(stops_view(stops@) =~= opened.update(
        opened.len() - 1,
        StopView {
            location: last_before.location,
            time: ScheduleView {
                arrival: last_before.time.arrival,
                departure: time_text(act.schedule.departure as int),
            },
            distance: last_before.distance,
            load: load_report(new_load@),
            activities: last_before.activities.push(activity@),
        },
    ));
    let end_location = if get_commute(act).backward.1 > 0 {
        find_location(&problem.coord_index, &stop_location)
    } else {
        act.place.location
    };
    Leg {
        last_detail: Some((end_location, act.schedule.departure)),
        load: Some(new_load),
        statistic: get_totals_after(&statistic, departure, act, &numbers),
    }
}


/// Whether an activity is a reload, at which a tour is cut into parts.
pub open spec fn is_reload(act: ActivityView) -> bool {
    activity_kind(act) == Some("reload"@)
}

/// The parts that the first `count` activities of a tour close: each part
/// given by the positions of its first and its last activity. A part ends
/// before a reload that comes after the start, and at the end of the tour.
pub open spec fn intervals_of(tour: Seq<ActivityView>, count: int) -> Seq<(usize, usize)>
    decreases count,
{
    if count <= 0 {
        Seq::<(usize, usize)>::empty()
    } else {
        let before = intervals_of(tour, count - 1);
        let idx = count - 1;
        let is_last = idx == tour.len() - 1;
        if (idx > 0 && is_reload(tour[idx])) || is_last {
            let start = if before.len() == 0 {
                0
            } else {
                before[before.len() - 1].1 + 1
            };
            let end = if is_last {
                idx
            } else {
                idx - 1
            };
            before.push((start as usize, end as usize))
        } else {
            before
        }
    }
}

/// What the activities at the positions from `from` up to `to` deliver and
/// pick up for good, the deliveries added to `carried`.
pub open spec fn static_totals(
    tour: Seq<ActivityView>,
    is_multi_dimen: bool,
    carried: Seq<i32>,
    from: int,
    to: int,
) -> (Seq<i32>, Seq<i32>)
    decreases to - from,
{
    if to <= from {
        (carried, Seq::<i32>::empty())
    } else {
        let before = static_totals(tour, is_multi_dimen, carried, from, to - 1);
        let demand = activity_demand(tour[to - 1], is_multi_dimen);
        (load_sum(before.0, demand.delivery.0), load_sum(before.1, demand.pickup.0))
    }
}

/// The state of a tour report after the activities at the positions from
/// `from` up to `to`.
pub open spec fn visit_range(
    problem: &Problem,
    costs: Costs,
    is_multi_dimen: bool,
    state: TourState,
    tour: Seq<ActivityView>,
    from: int,
    to: int,
) -> TourState
    decreases to - from,
{
    if to <= from {
        state
    } else {
        visit(
            problem,
            costs,
            is_multi_dimen,
            visit_range(problem, costs, is_multi_dimen, state, tour, from, to - 1),
            tour[to - 1],
        )
    }
}

/// The stop at which a tour starts, with the load that the vehicle sets out
/// with.
pub open spec fn departure_stop(
    problem: &Problem,
    tour: Seq<ActivityView>,
    start_delivery: Seq<i32>,
) -> StopView {
    let start = tour[0];
    let has_dispatch = tour.len() > 1 && match activity_job(tour[1]) {
        Some(job) => job_dimens(job).kind == Some("dispatch"@),
        None => false,
    };
    let is_same_location = tour.len() > 1 && start.place.location == tour[1].place.location;
    StopView {
        location: problem.coord_index@[start.place.location as int],
        time: schedule_text(start.schedule),
        distance: 0,
        load: if has_dispatch {
            seq![0i32]
        } else {
            load_report(start_delivery)
        },
        activities: seq![
            ApiActivityView {
                job_id: "departure"@,
                activity_type: "departure"@,
                location: None,
                time: if is_same_location {
                    Some(
                        IntervalView {
                            start: time_text(start.schedule.arrival as int),
                            end: time_text(start.schedule.departure as int),
                        },
                    )
                } else {
                    None
                },
                job_tag: None,
                commute: None,
            },
        ],
    }
}

/// The state of a tour report after the part of the tour from `start_idx` to
/// `end_idx`. The vehicle sets out with what the part delivers; what it picks
/// up leaves it at the end of the part.
#[verifier::opaque]
pub open spec fn run_interval(
    problem: &Problem,
    costs: Costs,
    is_multi_dimen: bool,
    tour: Seq<ActivityView>,
    state: TourState,
    start_idx: int,
    end_idx: int,
) -> TourState {
    let totals = static_totals(tour, is_multi_dimen, state.leg.load, start_idx, end_idx + 1);
    let start = if start_idx == 0 {
        tour[0]
    } else {
        tour[start_idx - 1]
    };
    let entered = TourState {
        stops: if start_idx == 0 {
            state.stops.push(departure_stop(problem, tour, totals.0))
        } else {
            state.stops
        },
        leg: LegState {
            location: start.place.location,
            departure: start.schedule.departure,
            load: totals.0,
            statistic: state.leg.statistic,
        },
    };
    let done = visit_range(
        problem,
        costs,
        is_multi_dimen,
        entered,
        tour,
        if start_idx == 0 {
            1
        } else {
            start_idx
        },
        end_idx + 1,
    );
    TourState {
        stops: done.stops,
        leg: LegState {
            location: done.leg.location,
            departure: done.leg.departure,
            load: load_difference(done.leg.load, totals.1),
            statistic: done.leg.statistic,
        },
    }
}

/// The state before a tour: no stop, nowhere yet, no load, all totals zero.
pub open spec fn initial_state() -> TourState {
    TourState {
        stops: Seq::<StopView>::empty(),
        leg: LegState {
            location: 0,
            departure: 0,
            load: Seq::<i32>::empty(),
            statistic: crate::format::solution::model::zero_statistic(),
        },
    }
}

/// The state of a tour report after the first `count` parts of the tour.
pub open spec fn run_intervals(
    problem: &Problem,
    costs: Costs,
    is_multi_dimen: bool,
    tour: Seq<ActivityView>,
    intervals: Seq<(usize, usize)>,
    count: int,
) -> TourState
    decreases count,
{
    if count <= 0 {
        initial_state()
    } else {
        run_interval(
            problem,
            costs,
            is_multi_dimen,
            tour,
            run_intervals(problem, costs, is_multi_dimen, tour, intervals, count - 1),
            intervals[count - 1].0 as int,
            intervals[count - 1].1 as int,
        )
    }
}

/// A stop without what need not be told: at a stop with one activity, the
/// activity's own location and time.
pub open spec fn pruned(stop: StopView) -> StopView {
    if stop.activities.len() == 1 {
        StopView {
            location: stop.location,
            time: stop.time,
            distance: stop.distance,
            load: stop.load,
            activities: seq![
                ApiActivityView {
                    job_id: stop.activities[0].job_id,
                    activity_type: stop.activities[0].activity_type,
                    location: None,
                    time: None,
                    job_tag: stop.activities[0].job_tag,
                    commute: stop.activities[0].commute,
                },
            ],
        }
    } else {
        stop
    }
}

/// Whether a route can be reported: its vehicle has an identifier, a type and
/// a shift, its tour has a start, and each of its activities can be
/// reported.
pub open spec fn route_is_reportable(problem: &Problem, route: RouteView) -> bool {
    &&& route.actor.vehicle.dimens.id.is_some()
    &&& route.actor.vehicle.dimens.type_id.is_some()
    &&& route.actor.vehicle.dimens.shift_index.is_some()
    &&& route.tour.len() > 0
    &&& forall|i: int|
        0 <= i < route.tour.len() ==> activity_is_reportable(problem, #[trigger] route.tour[i])
}

/// Whether the problem says in how many dimensions capacities are given.
pub open spec fn has_capacity_type(problem: &Problem) -> bool {
    problem.capacity_type.is_some() && (problem.capacity_type.unwrap()@ == "multi"@
        || problem.capacity_type.unwrap()@ == "single"@)
}

/// The reported form of a route: the vehicle, the stops of the tour with
/// their activities, and the totals, the vehicle's fixed cost included.
pub open spec fn tour_report(problem: &Problem, route: RouteView) -> TourView {
    let is_multi_dimen = problem.capacity_type.unwrap()@ == "multi"@;
    let costs = route.actor.vehicle.costs;
    let intervals = intervals_of(route.tour, route.tour.len() as int);
    let done = run_intervals(
        problem,
        costs,
        is_multi_dimen,
        route.tour,
        intervals,
        intervals.len() as int,
    );
    TourView {
        vehicle_id: route.actor.vehicle.dimens.id.unwrap(),
        type_id: route.actor.vehicle.dimens.type_id.unwrap(),
        shift_index: route.actor.vehicle.dimens.shift_index.unwrap(),
        stops: Seq::new(done.stops.len(), |i: int| pruned(done.stops[i])),
        statistic: Statistic {
            cost: clamp_i64(done.leg.statistic.cost + costs.fixed) as i64,
            distance: done.leg.statistic.distance,
            duration: done.leg.statistic.duration,
            times: done.leg.statistic.times,
        },
    }
}

fn is_marker(activity: &Activity) -> (r: bool)
    ensures
        r == is_reload(activity@),
{
    match get_activity_type(activity) {
        Some(kind) => text_is(kind, "reload"),
        None => false,
    }
}

/// The parts of a route's tour, each given by the positions of its first and
/// its last activity: a part ends before a reload that comes after the
/// start, and at the end of the tour.
pub fn route_intervals(route: &Route) -> (r: Vec<(usize, usize)>)
    requires
        route@.tour.len() > 0,
    ensures
        r@ == intervals_of(route@.tour, route@.tour.len() as int),
        r@.len() > 0,
        r@[0].0 == 0,
        forall|k: int| 0 <= k < r@.len() ==> (#[trigger] r@[k]).1 < route@.tour.len(),
        forall|k: int| 0 <= k < r@.len() ==> (#[trigger] r@[k]).0 <= r@[k].1 + 1,
{
    let total: usize = route.tour.total();
    let last_idx: usize = total - 1;
    let mut acc: Vec<(usize, usize)> = Vec::new();
    let mut idx: usize = 0;
    while idx < total
        invariant
            idx <= total,
            total == route@.tour.len(),
            total == route.tour.activities@.len(),
            last_idx == total - 1,
            acc@ == intervals_of(route@.tour, idx as int),
            forall|k: int| 0 <= k < acc@.len() ==> (#[trigger] acc@[k]).1 < idx,
            forall|k: int| 0 <= k < acc@.len() ==> (#[trigger] acc@[k]).0 <= acc@[k].1 + 1,
            acc@.len() > 0 ==> acc@[0].0 == 0,
            idx == total ==> acc@.len() > 0,
        decreases total - idx,
    {
        let activity = &route.tour.activities[idx];
        assert(route@.tour[idx as int] == activity@);
        let marker = idx > 0 && is_marker(activity);
        let is_last = idx == last_idx;
        if marker || is_last {
            let start_idx: usize = if acc.len() == 0 {
                0
            } else {
                acc[acc.len() - 1].1 + 1
            };
            let end_idx: usize = if is_last {
                last_idx
            } else {
                idx - 1
            };
            acc.push((start_idx, end_idx));
        }
        idx = idx + 1;
    }
    acc
}

/// The state that a leg stands for.
pub open spec fn leg_state(leg: Leg) -> LegState {
    LegState {
        location: match leg.last_detail {
            Some(detail) => detail.0,
            None => 0,
        },
        departure: match leg.last_detail {
            Some(detail) => detail.1,
            None => 0,
        },
        load: match leg.load {
            Some(load) => load@,
            None => Seq::<i32>::empty(),
        },
        statistic: leg.statistic,
    }
}

fn get_static_totals(
    route: &Route,
    is_multi_dimen: bool,
    carried: MultiDimLoad,
    start_idx: usize,
    end_idx: usize,
) -> (r: (MultiDimLoad, MultiDimLoad))
    requires
        end_idx < route@.tour.len(),
        start_idx <= end_idx + 1,
    ensures
        (r.0@, r.1@) == static_totals(
            route@.tour,
            is_multi_dimen,
            carried@,
            start_idx as int,
            end_idx + 1,
        ),
{
    let total: usize = route.tour.total();
    let to: usize = end_idx + 1;
    let mut delivery = carried;
    let mut pickup = MultiDimLoad::empty();
    let mut i: usize = start_idx;
    while i < to
        invariant
            to <= route@.tour.len(),
            route@.tour.len() == route.tour.activities@.len(),
            start_idx <= i <= to,
            (delivery@, pickup@) == static_totals(
                route@.tour,
                is_multi_dimen,
                carried@,
                start_idx as int,
                i as int,
            ),
        decreases to - i,
    {
        let activity = &route.tour.activities[i];
        assert(route@.tour[i as int] == activity@);
        let demand = get_activity_demand(activity, is_multi_dimen);
        delivery = delivery.plus(&demand.delivery.0);
        pickup = pickup.plus(&demand.pickup.0);
        i = i + 1;
    }
    (delivery, pickup)
}

fn report_departure(problem: &Problem, route: &Route, start_delivery: &MultiDimLoad) -> (r: Stop)
    requires
        route_is_reportable(problem, route@),
    ensures
        r@ == departure_stop(problem, route@.tour, start_delivery@),
{
    let start = &route.tour.activities[0];
    assert(route@.tour[0] == start@);
    let mut has_dispatch = false;
    let mut is_same_location = false;
    if route.tour.activities.len() > 1 {
        let next = &route.tour.activities[1];
        assert(route@.tour[1] == next@);
        has_dispatch = match next.retrieve_job() {
            Some(job) => match &job.dimens().kind {
                Some(kind) => text_is(kind, "dispatch"),
                None => false,
            },
            None => false,
        };
        is_same_location = start.place.location == next.place.location;
    }
    let mut activities: Vec<ApiActivity> = Vec::new();
    activities.push(
        ApiActivity {
            job_id: String::from_str("departure"),
            activity_type: String::from_str("departure"),
            location: None,
            time: if is_same_location {
                Some(
                    Interval {
                        start: format_time(start.schedule.arrival),
                        end: format_time(start.schedule.departure),
                    },
                )
            } else {
                None
            },
            job_tag: None,
            commute: None,
        },
    );
    let load = if has_dispatch {
        let mut zero: Vec<i32> = Vec::new();
        zero.push(0);
        assert(zero@ =~= seq![0i32]);
        zero
    } else {
        start_delivery.as_vec()
    };
    let stop = Stop {
        location: problem.coord_index[start.place.location],
        time: format_schedule(&start.schedule),
        distance: 0,
        load,
        activities,
    };
    assert(stop@.activities =~= departure_stop(
        problem,
        route@.tour,
        start_delivery@,
    ).activities);
    stop
}

fn report_range(
    problem: &Problem,
    is_multi_dimen: bool,
    route: &Route,
    stops: &mut Vec<Stop>,
    leg: Leg,
    from: usize,
    to: usize,
) -> (r: Leg)
    requires
        route_is_reportable(problem, route@),
        from <= to <= route@.tour.len(),
        old(stops)@.len() > 0,
        leg.last_detail.is_some(),
        leg.load.is_some(),
    ensures
        final(stops)@.len() > 0,
        r.last_detail.is_some(),
        r.load.is_some(),
        (TourState { stops: stops_view(final(stops)@), leg: leg_state(r) }) == visit_range(
            problem,
            route@.actor.vehicle.costs,
            is_multi_dimen,
            TourState { stops: stops_view(old(stops)@), leg: leg_state(leg) },
            route@.tour,
            from as int,
            to as int,
        ),
{
    let ghost tour = route@.tour;
    let ghost entered = TourState { stops: stops_view(stops@), leg: leg_state(leg) };
    let costs = route.actor.vehicle.costs;
    let mut current = leg;
    let mut i: usize = from;
    while i < to
        invariant
            route_is_reportable(problem, route@),
            tour == route@.tour,
            tour.len() == route.tour.activities@.len(),
            costs == route@.actor.vehicle.costs,
            from <= i <= to <= tour.len(),
            stops@.len() > 0,
            current.last_detail.is_some(),
            current.load.is_some(),
            (TourState { stops: stops_view(stops@), leg: leg_state(current) }) == visit_range(
                problem,
                costs,
                is_multi_dimen,
                entered,
                tour,
                from as int,
                i as int,
            ),
        decreases to - i,
    {
        let act = &route.tour.activities[i];
        assert(tour[i as int] == act@);
        let ghost reached = TourState { stops: stops_view(stops@), leg: leg_state(current) };
        let (location, departure) = match current.last_detail {
            Some(detail) => detail,
            None => (0, 0),
        };
        let load = match current.load {
            Some(load) => load,
            None => MultiDimLoad::empty(),
        };
        let statistic = current.statistic;
        assert(reached.leg == (LegState { location, departure, load: load@, statistic }));
        current = visit_activity(
            problem,
            &costs,
            is_multi_dimen,
            stops,
            location,
            departure,
            load,
            statistic,
            act,
        );
        assert((TourState { stops: stops_view(stops@), leg: leg_state(current) }) == visit(
            problem,
            costs,
            is_multi_dimen,
            reached,
            act@,
        ));
        i = i + 1;
    }
    current
}

fn report_interval(
    problem: &Problem,
    is_multi_dimen: bool,
    route: &Route,
    stops: &mut Vec<Stop>,
    leg: Leg,
    start_idx: usize,
    end_idx: usize,
) -> (r: Leg)
    requires
        route_is_reportable(problem, route@),
        end_idx < route@.tour.len(),
        start_idx <= end_idx + 1,
        start_idx > 0 ==> old(stops)@.len() > 0,
    ensures
        final(stops)@.len() > 0,
        (TourState { stops: stops_view(final(stops)@), leg: leg_state(r) }) == run_interval(
            problem,
            route@.actor.vehicle.costs,
            is_multi_dimen,
            route@.tour,
            TourState { stops: stops_view(old(stops)@), leg: leg_state(leg) },
            start_idx as int,
            end_idx as int,
        ),
{
    reveal(run_interval);
    let ghost tour = route@.tour;
    assert(tour.len() == route.tour.activities@.len());
    let statistic = leg.statistic;
    let carried = match leg.load {
        Some(load) => load,
        None => MultiDimLoad::empty(),
    };
    let (start_delivery, end_pickup) = get_static_totals(
        route,
        is_multi_dimen,
        carried,
        start_idx,
        end_idx,
    );
    let from: usize = if start_idx == 0 {
        1
    } else {
        start_idx
    };
    let start = if start_idx == 0 {
        &route.tour.activities[0]
    } else {
        &route.tour.activities[start_idx - 1]
    };
    assert(start@ == if start_idx == 0 {
        tour[0]
    } else {
        tour[start_idx - 1]
    });
    if start_idx == 0 {
        let ghost before = stops_view(stops@);
        let stop = report_departure(problem, route, &start_delivery);
        stops.push(stop);
        assert(stops_view(stops@) =~= before.push(stop@));
    }
    let entered = Leg {
        last_detail: Some((start.place.location, start.schedule.departure)),
        load: Some(start_delivery),
        statistic,
    };
    let total: usize = route.tour.total();
    let to: usize = end_idx + 1;
    let done = report_range(problem, is_multi_dimen, route, stops, entered, from, to);
    let load = match done.load {
        Some(load) => load,
        None => MultiDimLoad::empty(),
    };
    Leg {
        last_detail: done.last_detail,
        load: Some(load.minus(&end_pickup)),
        statistic: done.statistic,
    }
}

fn prune_stops(stops: &mut Vec<Stop>)
    ensures
        stops_view(final(stops)@) == Seq::new(
            old(stops)@.len(),
            |i: int| pruned(stops_view(old(stops)@)[i]),
        ),
{
    let ghost before = stops_view(stops@);
    let mut i: usize = 0;
    while i < stops.len()
        invariant
            i <= stops@.len(),
            stops@.len() == before.len(),
            forall|k: int| 0 <= k < i ==> (#[trigger] stops@[k])@ == pruned(before[k]),
            forall|k: int| i <= k < stops@.len() ==> (#[trigger] stops@[k])@ == before[k],
        decreases stops@.len() - i,
    {
        if stops[i].activities.len() == 1 {
            let ghost stop = stops@[i as int]@;
            stops[i].activities[0].location = None;
            stops[i].activities[0].time = None;
            assert(stops@[i as int]@.activities =~= pruned(stop).activities);
        }
        i = i + 1;
    }
    assert(stops_view(stops@) =~= Seq::new(before.len(), |i: int| pruned(before[i])));
}

/// The reported form of a route.
pub fn create_tour(problem: &Problem, route: &Route) -> (r: Tour)
    requires
        has_capacity_type(problem),
        route_is_reportable(problem, route@),
    ensures
        r@ == tour_report(problem, route@),
{
    let is_multi_dimen = has_multi_dimensional_capacity(&problem.capacity_type);
    let costs = route.actor.vehicle.costs;
    let intervals = route_intervals(route);
    let mut stops: Vec<Stop> = Vec::new();
    let mut leg = Leg::empty();
    assert(stops_view(stops@) =~= initial_state().stops);
    let mut k: usize = 0;
    while k < intervals.len()
        invariant
            k <= intervals@.len(),
            route_is_reportable(problem, route@),
            costs == route@.actor.vehicle.costs,
            intervals@.len() > 0,
            intervals@[0].0 == 0,
            forall|j: int|
                0 <= j < intervals@.len() ==> (#[trigger] intervals@[j]).1 < route@.tour.len(),
            forall|j: int|
                0 <= j < intervals@.len() ==> (#[trigger] intervals@[j]).0 <= intervals@[j].1 + 1,
            k > 0 ==> stops@.len() > 0,
            (TourState { stops: stops_view(stops@), leg: leg_state(leg) }) == run_intervals(
                problem,
                costs,
                is_multi_dimen,
                route@.tour,
                intervals@,
                k as int,
            ),
        decreases intervals@.len() - k,
    {
        let (start_idx, end_idx) = intervals[k];
        leg = report_interval(problem, is_multi_dimen, route, &mut stops, leg, start_idx, end_idx);
        k = k + 1;
    }
    prune_stops(&mut stops);
    let vehicle = &route.actor.vehicle;
    Tour {
        vehicle_id: match &vehicle.dimens.id {
            Some(id) => id.clone(),
            None => String::from_str(""),
        },
        type_id: match &vehicle.dimens.type_id {
            Some(id) => id.clone(),
            None => String::from_str(""),
        },
        shift_index: match vehicle.dimens.shift_index {
            Some(index) => index,
            None => 0,
        },
        stops,
        statistic: Statistic {
            cost: plus(leg.statistic.cost, costs.fixed),
            distance: leg.statistic.distance,
            duration: leg.statistic.duration,
            times: leg.statistic.times,
        },
    }
}


/// The sum of the totals of the first `count` tours.
pub open spec fn total_statistic(tours: Seq<TourView>, count: int) -> Statistic
    decreases count,
{
    if count <= 0 {
        crate::format::solution::model::zero_statistic()
    } else {
        crate::format::solution::model::statistic_sum(
            total_statistic(tours, count - 1),
            tours[count - 1].statistic,
        )
    }
}

/// Whether a solution can be reported: each route can, the problem tells the
/// capacity type where there is a route, each unassigned job that is bound to
/// no vehicle has an identifier, and each unassigned break names its vehicle
/// and its shift.
pub open spec fn solution_is_reportable(problem: &Problem, solution: SolutionView) -> bool {
    &&& solution.routes.len() > 0 ==> has_capacity_type(problem)
    &&& forall|i: int|
        0 <= i < solution.routes.len() ==> route_is_reportable(problem, #[trigger] solution.routes[i])
    &&& unassigned_have_ids(solution.unassigned)
    &&& breaks_have_vehicles(solution.unassigned)
}

/// The reported form of a solution: a tour for each route in their order, the
/// sum of their totals, the unassigned jobs and the violations where there
/// are any, and extras with the metrics where metrics were given, else no
/// extras.
pub open spec fn solution_report(
    problem: &Problem,
    solution: SolutionView,
    metrics: Option<MetricsView>,
) -> ApiSolutionView {
    let tours = Seq::new(solution.routes.len(), |i: int| tour_report(problem, solution.routes[i]));
    let unassigned = unassigned_report(solution.unassigned, solution.unassigned.len() as int);
    let violations = violations_report(solution.unassigned, solution.unassigned.len() as int);
    ApiSolutionView {
        statistic: total_statistic(tours, tours.len() as int),
        tours,
        unassigned: if unassigned.len() > 0 {
            Some(unassigned)
        } else {
            None
        },
        violations: if violations.len() > 0 {
            Some(violations)
        } else {
            None
        },
        extras: match metrics {
            Some(given) => Some(ExtrasView { metrics: Some(given) }),
            None => None,
        },
    }
}

/// The view of optional metrics.
pub open spec fn metrics_view(metrics: Option<&Metrics>) -> Option<MetricsView> {
    match metrics {
        Some(given) => Some(given@),
        None => None,
    }
}

/// Creates the report of a solution.
pub fn create_solution(problem: &Problem, solution: &Solution, metrics: Option<&Metrics>) -> (r:
    ApiSolution)
    requires
        solution_is_reportable(problem, solution@),
    ensures
        r@ == solution_report(problem, solution@, metrics_view(metrics)),
{
    let ghost expected = Seq::new(
        solution@.routes.len(),
        |i: int| tour_report(problem, solution@.routes[i]),
    );
    let mut tours: Vec<Tour> = Vec::new();
    let mut statistic = Statistic::default();
    let mut i: usize = 0;
    while i < solution.routes.len()
        invariant
            i <= solution.routes@.len(),
            solution_is_reportable(problem, solution@),
            solution@.routes.len() == solution.routes@.len(),
            expected == Seq::new(
                solution@.routes.len(),
                |k: int| tour_report(problem, solution@.routes[k]),
            ),
            tours@.len() == i,
            forall|k: int| 0 <= k < i ==> (#[trigger] tours@[k])@ == expected[k],
            statistic == total_statistic(expected, i as int),
        decreases solution.routes@.len() - i,
    {
        let route = &solution.routes[i];
        assert(solution@.routes[i as int] == route@);
        let tour = create_tour(problem, route);
        statistic = statistic.plus(&tour.statistic);
        tours.push(tour);
        i = i + 1;
    }
    assert(crate::format::solution::model::tours_view(tours@) =~= expected);
    let unassigned = create_unassigned(&solution.unassigned);
    let violations = create_violations(&solution.unassigned);
    let extras = create_extras(metrics);
    ApiSolution { statistic, tours, unassigned, violations, extras }
}

} // verus!
