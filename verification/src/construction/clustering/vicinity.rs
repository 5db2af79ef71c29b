//! Grouping jobs that lie in the vicinity of one another: which jobs are near
//! enough in space and time to be visited as one cluster, and what visiting
//! them together takes.

use vstd::prelude::*;
use crate::algorithms::math::Ratio;
use crate::models::common::{
    clamp_i64, minus, plus, times, Distance, Duration, Location, TimeSpan, TimeWindow,
};
use crate::models::problem::{
    copy_cluster, copy_places, places_view, ClusterInfo, Dimensions, DimensionsView, Job, JobView,
    MatrixTransport, Place, PlaceView, Single, SingleView,
};

verus! {

/// A trait to get or set cluster info.
pub trait ClusterDimension {
    /// The jobs of the cluster, if there is one.
    spec fn cluster_of(&self) -> Option<Seq<ClusterInfo>>;

    /// Sets cluster.
    fn set_cluster(&mut self, jobs: Vec<ClusterInfo>)
        ensures
            final(self).cluster_of() == Some(jobs@),
    ;

    /// Gets cluster.
    fn get_cluster(&self) -> (r: Option<&Vec<ClusterInfo>>)
        ensures
            match r {
                Some(jobs) => self.cluster_of() == Some(jobs@),
                None => self.cluster_of().is_none(),
            },
    ;
}

impl ClusterDimension for Dimensions {
    open spec fn cluster_of(&self) -> Option<Seq<ClusterInfo>> {
        self@.cluster
    }

    fn set_cluster(&mut self, jobs: Vec<ClusterInfo>)
        ensures
            final(self)@ == (DimensionsView { cluster: Some(jobs@), ..old(self)@ }),
    {
        self.cluster = Some(jobs);
    }

    fn get_cluster(&self) -> (r: Option<&Vec<ClusterInfo>>) {
        match &self.cluster {
            Some(jobs) => Some(jobs),
            None => None,
        }
    }
}

/// Defines a various thresholds to control cluster size.
#[derive(Clone, Copy, Debug, PartialEq, Eq)]
pub struct ThresholdPolicy {
    /// Moving duration limit.
    pub moving_duration: Duration,
    /// Moving distance limit.
    pub moving_distance: Distance,
    /// Minimum shared time for jobs (non-inclusive).
    pub min_shared_time: Option<Duration>,
}

/// Specifies cluster visiting policy.
#[derive(Clone, Copy, Debug, PartialEq, Eq)]
pub enum VisitPolicy {
    /// It is required to return to the first job's location (cluster center)
    /// before visiting a next job.
    Return,
    /// Clustered jobs are visited one by one from the cluster center
    /// finishing in the end at the first job's location.
    ClosedContinuation,
    /// Clustered jobs are visited one by one starting from the cluster
    /// center and finishing in the end at the last job's location.
    OpenContinuation,
}

/// Specifies service time policy.
#[derive(Clone, Copy, Debug, PartialEq, Eq)]
pub enum ServiceTimePolicy {
    /// Keep original service time.
    Original,
    /// Correct service time by some multiplier.
    Multiplier(Ratio),
    /// Use fixed value for all clustered jobs.
    Fixed(Duration),
}

/// Keeps track of information specific for job visiting.
#[derive(Clone, Copy, Debug, PartialEq, Eq)]
pub struct VisitInfo {
    /// An activity's service time.
    pub service_time: Duration,
    /// Movement info in forward direction.
    pub forward: (Distance, Duration),
    /// Movement info in backward direction.
    pub backward: (Distance, Duration),
}

/// A place of one job, a place of another, and what visiting the second from
/// the first takes.
pub type DissimilarityInfo = (usize, usize, VisitInfo);

/// The windows among the first `count` time spans, in their order.
pub open spec fn windows_of(spans: Seq<TimeSpan>, count: int) -> Seq<TimeWindow>
    decreases count,
{
    if count <= 0 {
        Seq::<TimeWindow>::empty()
    } else {
        match spans[count - 1].spec_as_time_window() {
            Some(window) => windows_of(spans, count - 1).push(window),
            None => windows_of(spans, count - 1),
        }
    }
}

/// The windows among the time spans.
pub fn filter_times(spans: &Vec<TimeSpan>) -> (r: Vec<TimeWindow>)
    ensures
        r@ == windows_of(spans@, spans@.len() as int),
{
    let mut out: Vec<TimeWindow> = Vec::new();
    let mut i: usize = 0;
    while i < spans.len()
        invariant
            i <= spans@.len(),
            out@ == windows_of(spans@, i as int),
        decreases spans@.len() - i,
    {
        match spans[i].as_time_window() {
            Some(window) => {
                out.push(window);
            },
            None => {},
        }
        i = i + 1;
    }
    out
}

/// A place with a location: its position, its location, its duration and
/// its time windows.
pub type PlaceInfo = (usize, Location, Duration, Vec<TimeWindow>);

/// What is known of a place with a location; nothing of a place without.
pub fn map_place(idx: usize, place: &Place) -> (r: Option<PlaceInfo>)
    ensures
        match r {
            Some(info) => place.location == Some(info.1) && info.0 == idx && info.2
                == place.duration && info.3@ == windows_of(place.times@, place.times@.len() as int),
            None => place.location.is_none(),
        },
{
    match place.location {
        Some(location) => Some((idx, location, place.duration, filter_times(&place.times))),
        None => None,
    }
}

/// The longest time that a window shares with one of the first `count`
/// others; zero where it shares none.
pub open spec fn shared_with(window: TimeWindow, others: Seq<TimeWindow>, count: int) -> int
    decreases count,
{
    if count <= 0 {
        0
    } else {
        let before = shared_with(window, others, count - 1);
        match window.spec_overlapping(&others[count - 1]) {
            Some(shared) => if shared.spec_duration() > before {
                shared.spec_duration()
            } else {
                before
            },
            None => before,
        }
    }
}

/// The longest time that one of the first `count` windows shares with one of
/// the others; zero where none shares any.
pub open spec fn shared_time(windows: Seq<TimeWindow>, others: Seq<TimeWindow>, count: int) -> int
    decreases count,
{
    if count <= 0 {
        0
    } else {
        let before = shared_time(windows, others, count - 1);
        let own = shared_with(windows[count - 1], others, others.len() as int);
        if own > before {
            own
        } else {
            before
        }
    }
}

/// The longest time that one of the windows shares with one of the others.
pub fn get_shared_time(windows: &Vec<TimeWindow>, others: &Vec<TimeWindow>) -> (r: Duration)
    ensures
        r == shared_time(windows@, others@, windows@.len() as int),
{
    let mut longest: Duration = 0;
    let mut i: usize = 0;
    while i < windows.len()
        invariant
            i <= windows@.len(),
            longest == shared_time(windows@, others@, i as int),
        decreases windows@.len() - i,
    {
        let mut own: Duration = 0;
        let mut k: usize = 0;
        while k < others.len()
            invariant
                k <= others@.len(),
                i < windows@.len(),
                own == shared_with(windows@[i as int], others@, k as int),
            decreases others@.len() - k,
        {
            match windows[i].overlapping(&others[k]) {
                Some(shared) => {
                    let duration = shared.duration();
                    if duration > own {
                        own = duration;
                    }
                },
                None => {},
            }
            k = k + 1;
        }
        if own > longest {
            longest = own;
        }
        i = i + 1;
    }
    longest
}

/// The share `ratio` of a duration, rounded towards zero.
pub open spec fn scaled_duration(duration: int, ratio: Ratio) -> int {
    if duration >= 0 {
        clamp_i64((duration * ratio) / 1_000_000)
    } else {
        clamp_i64(-((-duration * ratio) / 1_000_000))
    }
}

/// The service time of a job in a cluster: its own, its own times the
/// multiplier, or the fixed one, as the policy says.
pub open spec fn service_time_of(policy: ServiceTimePolicy, duration: Duration) -> int {
    match policy {
        ServiceTimePolicy::Original => duration as int,
        ServiceTimePolicy::Multiplier(multiplier) => scaled_duration(duration as int, multiplier),
        ServiceTimePolicy::Fixed(service_time) => service_time as int,
    }
}

/// The service time of a job in a cluster.
pub fn get_service_time(policy: &ServiceTimePolicy, duration: Duration) -> (r: Duration)
    ensures
        r == service_time_of(*policy, duration),
{
    match policy {
        ServiceTimePolicy::Original => duration,
        ServiceTimePolicy::Multiplier(multiplier) => {
            let size: u128 = if duration >= 0 {
                duration as u128
            } else {
                (-(duration as i128)) as u128
            };
            assert(size * *multiplier <= 0x8000_0000_0000_0000 * 0xffff_ffff_ffff_ffff)
                by (nonlinear_arith)
                requires
                    0 <= size <= 0x8000_0000_0000_0000,
                    0 <= *multiplier <= 0xffff_ffff_ffff_ffff,
            ;
            let part: u128 = (size * *multiplier as u128) / 1_000_000;
            if duration >= 0 {
                if part > i64::MAX as u128 {
                    i64::MAX
                } else {
                    part as i64
                }
            } else {
                if part > 0x8000_0000_0000_0000 {
                    i64::MIN
                } else {
                    (-(part as i128)) as i64
                }
            }
        },
        ServiceTimePolicy::Fixed(service_time) => *service_time,
    }
}

/// What visiting the place `inner` of one job from the place `outer` of
/// another takes, if the two are near enough: both have a location, they
/// share more time than the least shared time, and the ways there and back
/// are below the moving limits in duration and distance.
pub open spec fn visit_of(
    outer: PlaceView,
    inner: PlaceView,
    threshold: ThresholdPolicy,
    service_time: ServiceTimePolicy,
    transport: &MatrixTransport,
) -> Option<VisitInfo> {
    if outer.location.is_none() || inner.location.is_none() {
        None
    } else {
        let outer_loc = outer.location.unwrap();
        let inner_loc = inner.location.unwrap();
        let shared = shared_time(
            windows_of(outer.times, outer.times.len() as int),
            windows_of(inner.times, inner.times.len() as int),
            windows_of(outer.times, outer.times.len() as int).len() as int,
        );
        let least = match threshold.min_shared_time {
            Some(time) => time as int,
            None => 0,
        };
        if shared > least && transport.spec_duration(outer_loc, inner_loc)
            < threshold.moving_duration && transport.spec_distance(outer_loc, inner_loc)
            < threshold.moving_distance && transport.spec_duration(inner_loc, outer_loc)
            < threshold.moving_duration && transport.spec_distance(inner_loc, outer_loc)
            < threshold.moving_distance {
            Some(
                VisitInfo {
                    service_time: service_time_of(service_time, inner.duration) as i64,
                    forward: (
                        transport.spec_distance(outer_loc, inner_loc) as i64,
                        transport.spec_duration(outer_loc, inner_loc) as i64,
                    ),
                    backward: (
                        transport.spec_distance(inner_loc, outer_loc) as i64,
                        transport.spec_duration(inner_loc, outer_loc) as i64,
                    ),
                },
            )
        } else {
            None
        }
    }
}

/// What the visits from one place to the first `count` places of another job
/// take, for those that are near enough, in their order.
pub open spec fn place_dissimilarities(
    outer: PlaceView,
    outer_idx: usize,
    inner: Seq<PlaceView>,
    count: int,
    threshold: ThresholdPolicy,
    service_time: ServiceTimePolicy,
    transport: &MatrixTransport,
) -> Seq<DissimilarityInfo>
    decreases count,
{
    if count <= 0 {
        Seq::<DissimilarityInfo>::empty()
    } else {
        let before = place_dissimilarities(
            outer,
            outer_idx,
            inner,
            count - 1,
            threshold,
            service_time,
            transport,
        );
        match visit_of(outer, inner[count - 1], threshold, service_time, transport) {
            Some(info) => before.push((outer_idx, (count - 1) as usize, info)),
            None => before,
        }
    }
}

/// What the visits from the first `count` places of one job to the places of
/// another take, for those that are near enough: place by place of the
/// first job, and for each the places of the second in their order.
pub open spec fn dissimilarities_of(
    outer: Seq<PlaceView>,
    inner: Seq<PlaceView>,
    count: int,
    threshold: ThresholdPolicy,
    service_time: ServiceTimePolicy,
    transport: &MatrixTransport,
) -> Seq<DissimilarityInfo>
    decreases count,
{
    if count <= 0 {
        Seq::<DissimilarityInfo>::empty()
    } else {
        dissimilarities_of(outer, inner, count - 1, threshold, service_time, transport)
            + place_dissimilarities(
            outer[count - 1],
            (count - 1) as usize,
            inner,
            inner.len() as int,
            threshold,
            service_time,
            transport,
        )
    }
}

fn get_visit(
    outer: &Place,
    inner: &Place,
    threshold: &ThresholdPolicy,
    service_time: &ServiceTimePolicy,
    transport: &MatrixTransport,
) -> (r: Option<VisitInfo>)
    ensures
        r == visit_of(outer@, inner@, *threshold, *service_time, transport),
{
    let outer_loc = match outer.location {
        Some(location) => location,
        None => {
            return None;
        },
    };
    let inner_loc = match inner.location {
        Some(location) => location,
        None => {
            return None;
        },
    };
    let outer_times = filter_times(&outer.times);
    let inner_times = filter_times(&inner.times);
    let shared = get_shared_time(&outer_times, &inner_times);
    let least: Duration = match threshold.min_shared_time {
        Some(time) => time,
        None => 0,
    };
    if shared > least {
        let fwd_distance = transport.distance(outer_loc, inner_loc);
        let fwd_duration = transport.duration(outer_loc, inner_loc);
        let bck_distance = transport.distance(inner_loc, outer_loc);
        let bck_duration = transport.duration(inner_loc, outer_loc);
        if fwd_duration < threshold.moving_duration && fwd_distance < threshold.moving_distance
            && bck_duration < threshold.moving_duration && bck_distance
            < threshold.moving_distance {
            return Some(
                VisitInfo {
                    service_time: get_service_time(service_time, inner.duration),
                    forward: (fwd_distance, fwd_duration),
                    backward: (bck_distance, bck_duration),
                },
            );
        }
    }
    None
}

/// Estimates what visiting the places of the job `inner` from the places of
/// the job `outer` takes, for the pairs of places that are near enough to be
/// visited as one cluster.
pub fn get_dissimilarities(
    outer: &Single,
    inner: &Single,
    threshold: &ThresholdPolicy,
    service_time: &ServiceTimePolicy,
    transport: &MatrixTransport,
) -> (r: Vec<DissimilarityInfo>)
    ensures
        r@ == dissimilarities_of(
            outer@.places,
            inner@.places,
            outer@.places.len() as int,
            *threshold,
            *service_time,
            transport,
        ),
{
    let ghost outer_places = outer@.places;
    let ghost inner_places = inner@.places;
    let mut out: Vec<DissimilarityInfo> = Vec::new();
    let mut i: usize = 0;
    while i < outer.places.len()
        invariant
            i <= outer.places@.len(),
            outer_places == places_view(outer.places@),
            inner_places == places_view(inner.places@),
            out@ == dissimilarities_of(
                outer_places,
                inner_places,
                i as int,
                *threshold,
                *service_time,
                transport,
            ),
        decreases outer.places@.len() - i,
    {
        let ghost before = out@;
        let mut k: usize = 0;
        assert(before + place_dissimilarities(
            outer_places[i as int],
            i,
            inner_places,
            0,
            *threshold,
            *service_time,
            transport,
        ) =~= before);
        while k < inner.places.len()
            invariant
                k <= inner.places@.len(),
                i < outer.places@.len(),
                outer_places == places_view(outer.places@),
                inner_places == places_view(inner.places@),
                out@ == before + place_dissimilarities(
                    outer_places[i as int],
                    i,
                    inner_places,
                    k as int,
                    *threshold,
                    *service_time,
                    transport,
                ),
            decreases inner.places@.len() - k,
        {
            let ghost so_far = place_dissimilarities(
                outer_places[i as int],
                i,
                inner_places,
                k as int,
                *threshold,
                *service_time,
                transport,
            );
            assert(outer_places[i as int] == outer.places@[i as int]@);
            assert(inner_places[k as int] == inner.places@[k as int]@);
            match get_visit(&outer.places[i], &inner.places[k], threshold, service_time, transport) {
                Some(info) => {
                    out.push((i, k, info));
                    assert(out@ =~= before + so_far.push((i, k, info)));
                },
                None => {},
            }
            k = k + 1;
        }
        i = i + 1;
    }
    out
}

/// The time that moving to a job of a cluster takes: there and back where the
/// vehicle returns to the centre after each job, else there only.
pub open spec fn movement_of(visiting: VisitPolicy, info: VisitInfo) -> int {
    match visiting {
        VisitPolicy::Return => clamp_i64(info.forward.1 + info.backward.1),
        _ => info.forward.1 as int,
    }
}

/// The duration of a cluster with one more job: that of the cluster so far,
/// the movement to the job and the job's service time.
pub open spec fn visit_duration_of(visiting: VisitPolicy, duration: Duration, info: VisitInfo) -> int {
    clamp_i64(clamp_i64(duration + movement_of(visiting, info)) + info.service_time)
}

/// The duration of a cluster with one more job.
pub fn get_visit_duration(visiting: &VisitPolicy, duration: Duration, info: &VisitInfo) -> (r:
    Duration)
    ensures
        r == visit_duration_of(*visiting, duration, *info),
{
    let movement = match visiting {
        VisitPolicy::Return => plus(info.forward.1, info.backward.1),
        VisitPolicy::ClosedContinuation => info.forward.1,
        VisitPolicy::OpenContinuation => info.forward.1,
    };
    plus(plus(duration, movement), info.service_time)
}

/// What is left of the time that a window of a cluster shares with a window
/// of a place, once the end is brought forward by the duration of the last
/// job of the cluster: nothing where they share no time or where less than
/// the least window is left.
pub open spec fn cluster_window_of(
    cluster_time: TimeWindow,
    place_time: TimeWindow,
    last_duration: Duration,
    least: Duration,
) -> Option<TimeWindow> {
    match place_time.spec_overlapping(&cluster_time) {
        Some(time) => {
            let end = clamp_i64(time.end - last_duration);
            if clamp_i64(end - time.start) < least {
                None
            } else {
                Some(TimeWindow { start: time.start, end: end as i64 })
            }
        },
        None => None,
    }
}

/// The windows that a window of a cluster gives with the first `count`
/// windows of a place.
pub open spec fn place_windows_of(
    cluster_time: TimeWindow,
    place_times: Seq<TimeWindow>,
    count: int,
    last_duration: Duration,
    least: Duration,
) -> Seq<TimeWindow>
    decreases count,
{
    if count <= 0 {
        Seq::<TimeWindow>::empty()
    } else {
        let before = place_windows_of(cluster_time, place_times, count - 1, last_duration, least);
        match cluster_window_of(cluster_time, place_times[count - 1], last_duration, least) {
            Some(window) => before.push(window),
            None => before,
        }
    }
}

/// The windows of a cluster with one more job: what the first `count`
/// windows of the cluster give with the windows of the job's place.
pub open spec fn cluster_windows_of(
    cluster_times: Seq<TimeWindow>,
    place_times: Seq<TimeWindow>,
    count: int,
    last_duration: Duration,
    least: Duration,
) -> Seq<TimeWindow>
    decreases count,
{
    if count <= 0 {
        Seq::<TimeWindow>::empty()
    } else {
        cluster_windows_of(cluster_times, place_times, count - 1, last_duration, least)
            + place_windows_of(
            cluster_times[count - 1],
            place_times,
            place_times.len() as int,
            last_duration,
            least,
        )
    }
}

/// The time windows of a cluster with one more job, served at a place with
/// the given windows. Where there is none, the job cannot join the cluster.
pub fn get_cluster_times(
    cluster_times: &Vec<TimeWindow>,
    place_times: &Vec<TimeWindow>,
    cluster_last_duration: Duration,
    time_window_threshold: Duration,
) -> (r: Vec<TimeWindow>)
    ensures
        r@ == cluster_windows_of(
            cluster_times@,
            place_times@,
            cluster_times@.len() as int,
            cluster_last_duration,
            time_window_threshold,
        ),
{
    let mut out: Vec<TimeWindow> = Vec::new();
    let mut i: usize = 0;
    while i < cluster_times.len()
        invariant
            i <= cluster_times@.len(),
            out@ == cluster_windows_of(
                cluster_times@,
                place_times@,
                i as int,
                cluster_last_duration,
                time_window_threshold,
            ),
        decreases cluster_times@.len() - i,
    {
        let ghost before = out@;
        let mut k: usize = 0;
        assert(before + place_windows_of(
            cluster_times@[i as int],
            place_times@,
            0,
            cluster_last_duration,
            time_window_threshold,
        ) =~= before);
        while k < place_times.len()
            invariant
                k <= place_times@.len(),
                i < cluster_times@.len(),
                out@ == before + place_windows_of(
                    cluster_times@[i as int],
                    place_times@,
                    k as int,
                    cluster_last_duration,
                    time_window_threshold,
                ),
            decreases place_times@.len() - k,
        {
            let ghost so_far = place_windows_of(
                cluster_times@[i as int],
                place_times@,
                k as int,
                cluster_last_duration,
                time_window_threshold,
            );
            match place_times[k].overlapping(&cluster_times[i]) {
                Some(time) => {
                    let end = minus(time.end, cluster_last_duration);
                    if minus(end, time.start) >= time_window_threshold {
                        let window = TimeWindow::new(time.start, end);
                        out.push(window);
                        assert(out@ =~= before + so_far.push(window));
                    }
                },
                None => {},
            }
            k = k + 1;
        }
        i = i + 1;
    }
    out
}

/// The time spans that are the given windows.
pub open spec fn spans_of(windows: Seq<TimeWindow>) -> Seq<TimeSpan> {
    Seq::new(windows.len(), |i: int| TimeSpan::Window(windows[i]))
}

/// Creates a single job with one place: the job number `index`, at the given
/// location, with the given duration, time windows and properties.
pub fn create_single_job(
    index: usize,
    location: Option<Location>,
    duration: Duration,
    windows: &Vec<TimeWindow>,
    dimens: &Dimensions,
) -> (r: Job)
    ensures
        r@ == JobView::Single(
            SingleView {
                index,
                places: seq![
                    crate::models::problem::PlaceView {
                        location,
                        duration,
                        times: spans_of(windows@),
                    },
                ],
                dimens: dimens@,
                root: None,
            },
        ),
{
    let mut spans: Vec<TimeSpan> = Vec::new();
    let mut i: usize = 0;
    while i < windows.len()
        invariant
            i <= windows@.len(),
            spans@.len() == i,
            forall|k: int| 0 <= k < i ==> spans@[k] == TimeSpan::Window(windows@[k]),
        decreases windows@.len() - i,
    {
        spans.push(TimeSpan::Window(windows[i]));
        i = i + 1;
    }
    assert(spans@ =~= spans_of(windows@));
    let mut places: Vec<Place> = Vec::new();
    places.push(Place { location, duration, times: spans });
    let single = Single { index, places, dimens: dimens.copy(), root: None };
    assert(single@.places =~= seq![
        crate::models::problem::PlaceView { location, duration, times: spans_of(windows@) },
    ]);
    Job::Single(single)
}

/// The jobs of a cluster with one more job; a cluster of that job alone
/// where there was none.
pub open spec fn cluster_with(cluster: Option<Seq<ClusterInfo>>, added: ClusterInfo) -> Seq<
    ClusterInfo,
> {
    match cluster {
        Some(jobs) => jobs.push(added),
        None => seq![added],
    }
}

/// Returns the cluster as a new job that has one more job among its
/// clustered jobs.
pub fn with_cluster_dimension(cluster: &Single, added: ClusterInfo) -> (r: Job)
    ensures
        r@ == JobView::Single(
            SingleView {
                dimens: DimensionsView {
                    cluster: Some(cluster_with(cluster@.dimens.cluster, added)),
                    ..cluster@.dimens
                },
                root: None,
                ..cluster@
            },
        ),
{
    let mut dimens = cluster.dimens.copy();
    let mut jobs = match dimens.get_cluster() {
        Some(jobs) => copy_cluster(jobs),
        None => Vec::new(),
    };
    jobs.push(added);
    assert(jobs@ =~= cluster_with(cluster@.dimens.cluster, added));
    dimens.set_cluster(jobs);
    Job::Single(
        Single { index: cluster.index, places: copy_places(&cluster.places), dimens, root: None },
    )
}

/// Whether a cluster can be finished: where the vehicle ends at the centre,
/// the cluster has one place, and its last job is known.
pub open spec fn can_finish(cluster: SingleView, visiting: VisitPolicy) -> bool {
    (visiting == VisitPolicy::ClosedContinuation && cluster.dimens.cluster.is_some()) ==> (
    cluster.places.len() == 1 && cluster.dimens.cluster.unwrap().len() > 0)
}

/// Finishes a cluster: where the vehicle ends at the centre, the way back
/// from the last job is added to the duration of the cluster.
pub fn finish_cluster(cluster: Single, visiting: &VisitPolicy) -> (r: Job)
    requires
        can_finish(cluster@, *visiting),
    ensures
        r@ == (if *visiting == VisitPolicy::ClosedContinuation
            && cluster@.dimens.cluster.is_some() {
            JobView::Single(
                SingleView {
                    places: seq![
                        crate::models::problem::PlaceView {
                            duration: clamp_i64(
                                cluster@.places[0].duration
                                    + cluster@.dimens.cluster.unwrap().last().backward.1,
                            ) as i64,
                            ..cluster@.places[0]
                        },
                    ],
                    root: None,
                    ..cluster@
                },
            )
        } else {
            JobView::Single(cluster@)
        }),
{
    let closed = match visiting {
        VisitPolicy::ClosedContinuation => true,
        _ => false,
    };
    if closed && cluster.dimens.cluster.is_some() {
        let backward: Duration = match &cluster.dimens.cluster {
            Some(clustered) => clustered[clustered.len() - 1].backward.1,
            None => 0,
        };
        let mut place = cluster.places[0].copy();
        place.duration = plus(place.duration, backward);
        let mut places: Vec<Place> = Vec::new();
        places.push(place);
        let finished = Single {
            index: cluster.index,
            places,
            dimens: cluster.dimens.copy(),
            root: None,
        };
        assert(finished@.places =~= seq![
            crate::models::problem::PlaceView {
                duration: clamp_i64(
                    cluster@.places[0].duration
                        + cluster@.dimens.cluster.unwrap().last().backward.1,
                ) as i64,
                ..cluster@.places[0]
            },
        ]);
        Job::Single(finished)
    } else {
        Job::Single(cluster)
    }
}

} // verus!
