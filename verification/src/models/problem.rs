//! Jobs, vehicles and travel costs of a routing problem.

use vstd::prelude::*;
use crate::models::common::{
    clamp_i64, plus, times, Cost, Demand, Distance, Duration, Location, MultiDimLoad,
    SingleDimLoad, TimeSpan, TimeWindow,
};

verus! {

/// The view of an optional text.
pub open spec fn text_view(text: Option<String>) -> Option<Seq<char>> {
    match text {
        Some(t) => Some(t@),
        None => None,
    }
}

/// A copy of an optional text.
pub fn copy_text(text: &Option<String>) -> (r: Option<String>)
    ensures
        text_view(r) == text_view(*text),
{
    match text {
        Some(t) => Some(t.clone()),
        None => None,
    }
}

/// The demand of a job, in one dimension or in several.
#[derive(Debug, PartialEq, Eq)]
pub enum JobDemand {
    /// A demand in a single dimension.
    Single(Demand<SingleDimLoad>),
    /// A demand in several dimensions.
    Multi(Demand<MultiDimLoad>),
}

/// The four loads of a demand: static pickup, dynamic pickup, static delivery,
/// dynamic delivery.
pub struct DemandView {
    pub pickup: (Seq<i32>, Seq<i32>),
    pub delivery: (Seq<i32>, Seq<i32>),
}

/// The view of a job's demand.
pub enum JobDemandView {
    Single(Demand<SingleDimLoad>),
    Multi(DemandView),
}

impl View for Demand<MultiDimLoad> {
    type V = DemandView;

    open spec fn view(&self) -> DemandView {
        DemandView {
            pickup: (self.pickup.0@, self.pickup.1@),
            delivery: (self.delivery.0@, self.delivery.1@),
        }
    }
}

impl View for JobDemand {
    type V = JobDemandView;

    open spec fn view(&self) -> JobDemandView {
        match self {
            JobDemand::Single(d) => JobDemandView::Single(*d),
            JobDemand::Multi(d) => JobDemandView::Multi(d@),
        }
    }
}

impl JobDemand {
    /// A copy of this demand.
    pub fn copy(&self) -> (r: Self)
        ensures
            r@ == self@,
    {
        match self {
            JobDemand::Single(d) => JobDemand::Single(
                Demand { pickup: (d.pickup.0, d.pickup.1), delivery: (d.delivery.0, d.delivery.1) },
            ),
            JobDemand::Multi(d) => JobDemand::Multi(
                Demand {
                    pickup: (d.pickup.0.copy(), d.pickup.1.copy()),
                    delivery: (d.delivery.0.copy(), d.delivery.1.copy()),
                },
            ),
        }
    }
}

/// The view of an optional demand.
pub open spec fn demand_view(demand: Option<JobDemand>) -> Option<JobDemandView> {
    match demand {
        Some(d) => Some(d@),
        None => None,
    }
}

/// What is known of a job that is visited within a cluster.
#[derive(Clone, Copy, Debug, PartialEq, Eq)]
pub struct ClusterInfo {
    /// The number of the job in the problem.
    pub job: usize,
    /// The service time of the job's activity.
    pub service_time: Duration,
    /// The place of the job that is used.
    pub place_idx: usize,
    /// Distance and duration of the way to the job.
    pub forward: (Distance, Duration),
    /// Distance and duration of the way back from the job.
    pub backward: (Distance, Duration),
}

/// The view of an optional cluster.
pub open spec fn cluster_view(cluster: Option<Vec<ClusterInfo>>) -> Option<Seq<ClusterInfo>> {
    match cluster {
        Some(jobs) => Some(jobs@),
        None => None,
    }
}

/// A copy of the jobs of a cluster.
pub fn copy_cluster(jobs: &Vec<ClusterInfo>) -> (r: Vec<ClusterInfo>)
    ensures
        r@ == jobs@,
{
    let mut out: Vec<ClusterInfo> = Vec::new();
    let mut i: usize = 0;
    while i < jobs.len()
        invariant
            i <= jobs@.len(),
            out@ == jobs@.subrange(0, i as int),
        decreases jobs@.len() - i,
    {
        out.push(jobs[i]);
        i = i + 1;
        assert(out@ =~= jobs@.subrange(0, i as int));
    }
    assert(out@ =~= jobs@);
    out
}

/// The named properties of a job or a vehicle that the library reads.
#[derive(Debug, PartialEq, Eq)]
pub struct Dimensions {
    /// The identifier.
    pub id: Option<String>,
    /// The type of a job's activity, such as a pickup, a break or a reload.
    pub kind: Option<String>,
    /// The identifier of a vehicle's type.
    pub type_id: Option<String>,
    /// The identifier of the vehicle that a job is bound to.
    pub vehicle_id: Option<String>,
    /// The index of the vehicle's shift.
    pub shift_index: Option<usize>,
    /// A tag that is reported with the job's activity.
    pub tag: Option<String>,
    /// The job's place in the desired order of a tour: lower comes first.
    pub order: Option<i32>,
    /// The job's demand.
    pub demand: Option<JobDemand>,
    /// The jobs that are visited with this one as a cluster.
    pub cluster: Option<Vec<ClusterInfo>>,
}

/// The view of [`Dimensions`].
pub struct DimensionsView {
    pub id: Option<Seq<char>>,
    pub kind: Option<Seq<char>>,
    pub type_id: Option<Seq<char>>,
    pub vehicle_id: Option<Seq<char>>,
    pub shift_index: Option<usize>,
    pub tag: Option<Seq<char>>,
    pub order: Option<i32>,
    pub demand: Option<JobDemandView>,
    pub cluster: Option<Seq<ClusterInfo>>,
}

impl View for Dimensions {
    type V = DimensionsView;

    open spec fn view(&self) -> DimensionsView {
        DimensionsView {
            id: text_view(self.id),
            kind: text_view(self.kind),
            type_id: text_view(self.type_id),
            vehicle_id: text_view(self.vehicle_id),
            shift_index: self.shift_index,
            tag: text_view(self.tag),
            order: self.order,
            demand: demand_view(self.demand),
            cluster: cluster_view(self.cluster),
        }
    }
}

impl Dimensions {
    /// Dimensions without any property.
    pub fn new() -> (r: Self)
        ensures
            r@ == (DimensionsView {
                id: None,
                kind: None,
                type_id: None,
                vehicle_id: None,
                shift_index: None,
                tag: None,
                order: None,
                demand: None,
                cluster: None,
            }),
    {
        Dimensions {
            id: None,
            kind: None,
            type_id: None,
            vehicle_id: None,
            shift_index: None,
            tag: None,
            order: None,
            demand: None,
            cluster: None,
        }
    }

    /// A copy of these dimensions.
    pub fn copy(&self) -> (r: Self)
        ensures
            r@ == self@,
    {
        let demand = match &self.demand {
            Some(d) => Some(d.copy()),
            None => None,
        };
        Dimensions {
            id: copy_text(&self.id),
            kind: copy_text(&self.kind),
            type_id: copy_text(&self.type_id),
            vehicle_id: copy_text(&self.vehicle_id),
            shift_index: self.shift_index,
            tag: copy_text(&self.tag),
            order: self.order,
            demand,
            cluster: match &self.cluster {
                Some(jobs) => Some(copy_cluster(jobs)),
                None => None,
            },
        }
    }
}

/// A job of several parts. Its parts refer to it; it does not list them.
#[derive(Debug, PartialEq, Eq)]
pub struct Multi {
    /// The job's number in the problem: two values are the same job exactly
    /// when their numbers agree.
    pub index: usize,
    /// The job's properties.
    pub dimens: Dimensions,
}

/// The view of [`Multi`].
pub struct MultiView {
    pub index: usize,
    pub dimens: DimensionsView,
}

impl View for Multi {
    type V = MultiView;

    open spec fn view(&self) -> MultiView {
        MultiView { index: self.index, dimens: self.dimens@ }
    }
}

impl Multi {
    /// A copy of this job.
    pub fn copy(&self) -> (r: Self)
        ensures
            r@ == self@,
    {
        Multi { index: self.index, dimens: self.dimens.copy() }
    }
}

/// A place at which a job can be served.
#[derive(Debug, PartialEq, Eq)]
pub struct Place {
    /// The location of the place, if it is fixed.
    pub location: Option<Location>,
    /// How long the service takes.
    pub duration: Duration,
    /// When the service may start.
    pub times: Vec<TimeSpan>,
}

/// The view of [`Place`].
pub struct PlaceView {
    pub location: Option<Location>,
    pub duration: Duration,
    pub times: Seq<TimeSpan>,
}

impl View for Place {
    type V = PlaceView;

    open spec fn view(&self) -> PlaceView {
        PlaceView { location: self.location, duration: self.duration, times: self.times@ }
    }
}

impl Place {
    /// A copy of this place.
    pub fn copy(&self) -> (r: Self)
        ensures
            r@ == self@,
    {
        let mut times: Vec<TimeSpan> = Vec::new();
        let mut i: usize = 0;
        while i < self.times.len()
            invariant
                i <= self.times@.len(),
                times@ == self.times@.subrange(0, i as int),
            decreases self.times@.len() - i,
        {
            times.push(self.times[i]);
            i = i + 1;
            assert(times@ =~= self.times@.subrange(0, i as int));
        }
        assert(times@ =~= self.times@);
        Place { location: self.location, duration: self.duration, times }
    }
}

/// The views of a sequence of places.
pub open spec fn places_view(places: Seq<Place>) -> Seq<PlaceView> {
    Seq::new(places.len(), |i: int| places[i]@)
}

/// A copy of the places of a job.
pub fn copy_places(places: &Vec<Place>) -> (r: Vec<Place>)
    ensures
        places_view(r@) == places_view(places@),
{
    let mut out: Vec<Place> = Vec::new();
    let mut i: usize = 0;
    while i < places.len()
        invariant
            i <= places@.len(),
            out@.len() == i,
            forall|k: int| 0 <= k < i ==> (#[trigger] out@[k])@ == places@[k]@,
        decreases places@.len() - i,
    {
        out.push(places[i].copy());
        i = i + 1;
    }
    assert(places_view(out@) =~= places_view(places@));
    out
}

/// A job that is served by one activity.
#[derive(Debug, PartialEq, Eq)]
pub struct Single {
    /// The job's number in the problem: two values are the same job exactly
    /// when their numbers agree.
    pub index: usize,
    /// The places at which the job can be served.
    pub places: Vec<Place>,
    /// The job's properties.
    pub dimens: Dimensions,
    /// The job of several parts that this one belongs to, if any.
    pub root: Option<Multi>,
}

/// The view of [`Single`].
pub struct SingleView {
    pub index: usize,
    pub places: Seq<PlaceView>,
    pub dimens: DimensionsView,
    pub root: Option<MultiView>,
}

impl View for Single {
    type V = SingleView;

    open spec fn view(&self) -> SingleView {
        SingleView {
            index: self.index,
            places: places_view(self.places@),
            dimens: self.dimens@,
            root: match self.root {
                Some(m) => Some(m@),
                None => None,
            },
        }
    }
}

impl Single {
    /// A copy of this job.
    pub fn copy(&self) -> (r: Self)
        ensures
            r@ == self@,
    {
        let root = match &self.root {
            Some(m) => Some(m.copy()),
            None => None,
        };
        Single {
            index: self.index,
            places: copy_places(&self.places),
            dimens: self.dimens.copy(),
            root,
        }
    }
}

/// A job: single, or of several parts.
#[derive(Debug, PartialEq, Eq)]
pub enum Job {
    /// A single job.
    Single(Single),
    /// A job of several parts.
    Multi(Multi),
}

/// The view of [`Job`].
pub enum JobView {
    Single(SingleView),
    Multi(MultiView),
}

impl View for Job {
    type V = JobView;

    open spec fn view(&self) -> JobView {
        match self {
            Job::Single(s) => JobView::Single(s@),
            Job::Multi(m) => JobView::Multi(m@),
        }
    }
}

/// The properties of a job in view.
pub open spec fn job_dimens(job: JobView) -> DimensionsView {
    match job {
        JobView::Single(s) => s.dimens,
        JobView::Multi(m) => m.dimens,
    }
}

/// Whether two values are the same job: both single or both of several parts,
/// with the same number.
pub open spec fn same_job(a: JobView, b: JobView) -> bool {
    match (a, b) {
        (JobView::Single(x), JobView::Single(y)) => x.index == y.index,
        (JobView::Multi(x), JobView::Multi(y)) => x.index == y.index,
        _ => false,
    }
}

impl Job {
    /// The job's properties.
    pub fn dimens(&self) -> (r: &Dimensions)
        ensures
            r@ == job_dimens(self@),
    {
        match self {
            Job::Single(s) => &s.dimens,
            Job::Multi(m) => &m.dimens,
        }
    }

    /// A copy of this job.
    pub fn copy(&self) -> (r: Self)
        ensures
            r@ == self@,
    {
        match self {
            Job::Single(s) => Job::Single(s.copy()),
            Job::Multi(m) => Job::Multi(m.copy()),
        }
    }
}

/// What a vehicle costs.
#[derive(Clone, Copy, Debug, PartialEq, Eq)]
pub struct Costs {
    /// A cost for using the vehicle at all.
    pub fixed: Cost,
    /// Cost per distance unit.
    pub per_distance: Cost,
    /// Cost per second of driving.
    pub per_driving_time: Cost,
    /// Cost per second of waiting.
    pub per_waiting_time: Cost,
    /// Cost per second of service.
    pub per_service_time: Cost,
}

/// A vehicle.
#[derive(Debug, PartialEq, Eq)]
pub struct Vehicle {
    /// What the vehicle costs.
    pub costs: Costs,
    /// The vehicle's properties.
    pub dimens: Dimensions,
}

/// The view of [`Vehicle`].
pub struct VehicleView {
    pub costs: Costs,
    pub dimens: DimensionsView,
}

impl View for Vehicle {
    type V = VehicleView;

    open spec fn view(&self) -> VehicleView {
        VehicleView { costs: self.costs, dimens: self.dimens@ }
    }
}

/// Where and when an actor works.
#[derive(Clone, Copy, Debug, PartialEq, Eq)]
pub struct ActorDetail {
    /// Where the actor starts, if that is fixed.
    pub start: Option<Location>,
    /// Where the actor ends, if that is fixed.
    pub end: Option<Location>,
    /// When the actor works.
    pub time: TimeWindow,
}

/// Who performs a tour.
#[derive(Debug, PartialEq, Eq)]
pub struct Actor {
    /// The vehicle.
    pub vehicle: Vehicle,
    /// Where and when the actor works.
    pub detail: ActorDetail,
}

/// The view of [`Actor`].
pub struct ActorView {
    pub vehicle: VehicleView,
    pub detail: ActorDetail,
}

impl View for Actor {
    type V = ActorView;

    open spec fn view(&self) -> ActorView {
        ActorView { vehicle: self.vehicle@, detail: self.detail }
    }
}

impl Actor {
    /// A copy of this actor.
    pub fn copy(&self) -> (r: Self)
        ensures
            r@ == self@,
    {
        Actor {
            vehicle: Vehicle { costs: self.vehicle.costs, dimens: self.vehicle.dimens.copy() },
            detail: self.detail,
        }
    }
}

/// Travel durations and distances between locations, as square matrices
/// stored row by row.
#[derive(Debug, PartialEq, Eq)]
pub struct MatrixTransport {
    /// The number of locations.
    pub size: usize,
    /// Travel durations, `size` times `size` of them.
    pub durations: Vec<Duration>,
    /// Travel distances, `size` times `size` of them.
    pub distances: Vec<Distance>,
}

/// The entry of a row-wise square matrix, zero where the matrix has none.
pub open spec fn matrix_at(matrix: Seq<i64>, size: int, from: int, to: int) -> int {
    if 0 <= from < size && 0 <= to < size && from * size + to < matrix.len() {
        matrix[from * size + to] as int
    } else {
        0
    }
}

impl MatrixTransport {
    /// Travel duration between two locations; zero for a pair that the matrix
    /// does not hold.
    pub open spec fn spec_duration(&self, from: Location, to: Location) -> int {
        matrix_at(self.durations@, self.size as int, from as int, to as int)
    }

    /// Travel distance between two locations; zero for a pair that the matrix
    /// does not hold.
    pub open spec fn spec_distance(&self, from: Location, to: Location) -> int {
        matrix_at(self.distances@, self.size as int, from as int, to as int)
    }

    /// Cost of travelling between two locations with the given vehicle costs.
    pub open spec fn spec_cost(&self, costs: Costs, from: Location, to: Location) -> int {
        clamp_i64(
            clamp_i64(self.spec_distance(from, to) * costs.per_distance) + clamp_i64(
                self.spec_duration(from, to) * costs.per_driving_time,
            ),
        )
    }

    fn entry(matrix: &Vec<i64>, size: usize, from: Location, to: Location) -> (r: i64)
        ensures
            r == matrix_at(matrix@, size as int, from as int, to as int),
    {
        if from < size && to < size {
            assert(from * size + to < 0x1_0000_0000_0000_0000 * 0x1_0000_0000_0000_0000)
                by (nonlinear_arith)
                requires
                    0 <= from < size,
                    0 <= to < size,
                    size < 0x1_0000_0000_0000_0000,
            ;
            let wide: u128 = from as u128 * size as u128 + to as u128;
            if wide < matrix.len() as u128 {
                matrix[wide as usize]
            } else {
                0
            }
        } else {
            0
        }
    }

    /// Travel duration between two locations.
    pub fn duration(&self, from: Location, to: Location) -> (r: Duration)
        ensures
            r == self.spec_duration(from, to),
    {
        Self::entry(&self.durations, self.size, from, to)
    }

    /// Travel distance between two locations.
    pub fn distance(&self, from: Location, to: Location) -> (r: Distance)
        ensures
            r == self.spec_distance(from, to),
    {
        Self::entry(&self.distances, self.size, from, to)
    }

    /// Cost of travelling between two locations with the given vehicle costs.
    pub fn cost(&self, costs: &Costs, from: Location, to: Location) -> (r: Cost)
        ensures
            r == self.spec_cost(*costs, from, to),
    {
        plus(
            times(self.distance(from, to), costs.per_distance),
            times(self.duration(from, to), costs.per_driving_time),
        )
    }
}

} // verus!
