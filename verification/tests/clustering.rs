use rosomaxa::construction::clustering::vicinity::{
    create_single_job, filter_times, finish_cluster, get_cluster_times, get_dissimilarities, get_service_time,
    get_shared_time, get_visit_duration, map_place, with_cluster_dimension, ClusterDimension, ServiceTimePolicy,
    ThresholdPolicy, VisitInfo, VisitPolicy,
};
use rosomaxa::models::common::{TimeOffset, TimeSpan, TimeWindow};
use rosomaxa::models::problem::{ClusterInfo, Dimensions, Job, MatrixTransport, Place, Single};

fn window(start: i64, end: i64) -> TimeWindow {
    TimeWindow::new(start, end)
}

fn place(location: Option<usize>, duration: i64, windows: Vec<(i64, i64)>) -> Place {
    Place { location, duration, times: windows.into_iter().map(|(start, end)| TimeSpan::Window(window(start, end))).collect() }
}

fn single(index: usize, places: Vec<Place>) -> Single {
    Single { index, places, dimens: Dimensions::new(), root: None }
}

fn transport() -> MatrixTransport {
    // three locations on a line, ten apart; the way back takes twice as long
    MatrixTransport {
        size: 3,
        durations: vec![0, 10, 20, 20, 0, 10, 40, 20, 0],
        distances: vec![0, 10, 20, 10, 0, 10, 20, 10, 0],
    }
}

fn info(job: usize, backward: i64) -> ClusterInfo {
    ClusterInfo { job, service_time: 5, place_idx: 0, forward: (10, 10), backward: (10, backward) }
}

#[test]
fn time_windows_overlap() {
    assert_eq!(window(0, 10).overlapping(&window(5, 20)), Some(window(5, 10)));
    assert_eq!(window(5, 20).overlapping(&window(0, 10)), Some(window(5, 10)));
    assert_eq!(window(0, 10).overlapping(&window(10, 20)), Some(window(10, 10)));
    assert_eq!(window(0, 10).overlapping(&window(11, 20)), None);
    assert!(window(0, 10).intersects(&window(10, 20)));
    assert!(!window(0, 10).intersects(&window(-5, -1)));
    assert_eq!(window(3, 10).duration(), 7);
    assert_eq!(window(i64::MIN, i64::MAX).duration(), i64::MAX);
    assert_eq!(TimeSpan::Window(window(1, 2)).as_time_window(), Some(window(1, 2)));
    assert_eq!(TimeSpan::Offset(TimeOffset { start: 1, end: 2 }).as_time_window(), None);
}

#[test]
fn only_windows_are_kept_of_time_spans() {
    let spans = vec![
        TimeSpan::Window(window(0, 10)),
        TimeSpan::Offset(TimeOffset { start: 1, end: 2 }),
        TimeSpan::Window(window(20, 30)),
    ];

    assert_eq!(filter_times(&spans), vec![window(0, 10), window(20, 30)]);
    assert_eq!(map_place(3, &place(Some(7), 5, vec![(0, 10)])), Some((3, 7, 5, vec![window(0, 10)])));
    assert_eq!(map_place(3, &place(None, 5, vec![(0, 10)])), None);
}

#[test]
fn shared_time_is_the_longest_overlap() {
    assert_eq!(get_shared_time(&vec![window(0, 10), window(20, 40)], &vec![window(5, 25), window(30, 100)]), 10);
    assert_eq!(get_shared_time(&vec![window(0, 10)], &vec![window(20, 30)]), 0);
    assert_eq!(get_shared_time(&vec![], &vec![window(20, 30)]), 0);
    assert_eq!(get_shared_time(&vec![window(0, 10)], &vec![window(10, 30)]), 0);
}

#[test]
fn service_time_follows_the_policy() {
    assert_eq!(get_service_time(&ServiceTimePolicy::Original, 10), 10);
    assert_eq!(get_service_time(&ServiceTimePolicy::Multiplier(500_000), 10), 5);
    assert_eq!(get_service_time(&ServiceTimePolicy::Multiplier(250_000), 10), 2);
    assert_eq!(get_service_time(&ServiceTimePolicy::Multiplier(250_000), -10), -2);
    assert_eq!(get_service_time(&ServiceTimePolicy::Multiplier(u64::MAX), i64::MAX), i64::MAX);
    assert_eq!(get_service_time(&ServiceTimePolicy::Fixed(3), 10), 3);
}

#[test]
fn estimates_the_visits_that_are_near_enough() {
    let threshold = ThresholdPolicy { moving_duration: 25, moving_distance: 15, min_shared_time: Some(5) };
    let outer = single(0, vec![place(Some(0), 3, vec![(0, 100)]), place(None, 3, vec![(0, 100)]), place(Some(1), 3, vec![(0, 8)])]);
    let inner = single(
        1,
        vec![place(Some(1), 7, vec![(50, 200)]), place(Some(2), 7, vec![(0, 100)]), place(Some(0), 9, vec![(2, 8), (90, 200)])],
    );

    let estimates = get_dissimilarities(&outer, &inner, &threshold, &ServiceTimePolicy::Multiplier(1_000_000), &transport());

    assert_eq!(
        estimates,
        vec![
            // from location 0: location 1 is near, location 2 too far, location 0 itself lies at no distance
            (0, 0, VisitInfo { service_time: 7, forward: (10, 10), backward: (10, 20) }),
            (0, 2, VisitInfo { service_time: 9, forward: (0, 0), backward: (0, 0) }),
            // from location 1, open for eight units of time, the first place shares no time
            (2, 1, VisitInfo { service_time: 7, forward: (10, 10), backward: (10, 20) }),
            (2, 2, VisitInfo { service_time: 9, forward: (10, 20), backward: (10, 10) }),
        ]
    );
    let strict = ThresholdPolicy { min_shared_time: Some(50), ..threshold };
    assert_eq!(get_dissimilarities(&outer, &inner, &strict, &ServiceTimePolicy::Original, &transport()), vec![]);
    let lenient = ThresholdPolicy { min_shared_time: None, ..threshold };
    assert_eq!(get_dissimilarities(&outer, &inner, &lenient, &ServiceTimePolicy::Fixed(1), &transport()).len(), 4);
    let narrow = ThresholdPolicy { moving_duration: 20, ..lenient };
    assert_eq!(
        get_dissimilarities(&outer, &inner, &narrow, &ServiceTimePolicy::Fixed(1), &transport()),
        vec![(0, 2, VisitInfo { service_time: 1, forward: (0, 0), backward: (0, 0) })]
    );
}

#[test]
fn visit_duration_follows_the_policy() {
    let visit = VisitInfo { service_time: 5, forward: (1, 10), backward: (1, 20) };

    assert_eq!(get_visit_duration(&VisitPolicy::Return, 100, &visit), 135);
    assert_eq!(get_visit_duration(&VisitPolicy::ClosedContinuation, 100, &visit), 115);
    assert_eq!(get_visit_duration(&VisitPolicy::OpenContinuation, 100, &visit), 115);
    assert_eq!(get_visit_duration(&VisitPolicy::Return, i64::MAX, &visit), i64::MAX);
}

#[test]
fn cluster_times_shrink_by_the_last_duration() {
    let cluster_times = vec![window(0, 100), window(200, 300)];
    let place_times = vec![window(50, 250), window(290, 400)];

    assert_eq!(
        get_cluster_times(&cluster_times, &place_times, 10, 0),
        vec![window(50, 90), window(200, 240), window(290, 290)]
    );
    assert_eq!(get_cluster_times(&cluster_times, &place_times, 10, 1), vec![window(50, 90), window(200, 240)]);
    assert_eq!(get_cluster_times(&cluster_times, &place_times, 10, 41), vec![]);
    assert_eq!(get_cluster_times(&cluster_times, &vec![window(101, 199)], 0, 0), vec![]);
}

#[test]
fn cluster_gathers_its_jobs() {
    let mut dimens = Dimensions::new();
    dimens.id = Some("centre".to_string());
    let centre = match create_single_job(4, Some(2), 5, &vec![window(0, 10)], &dimens) {
        Job::Single(single) => single,
        Job::Multi(_) => panic!("a single job was created"),
    };
    assert_eq!(centre.index, 4);
    assert_eq!(centre.places, vec![place(Some(2), 5, vec![(0, 10)])]);
    assert_eq!(centre.dimens, dimens);
    assert_eq!(centre.dimens.get_cluster(), None);

    let first = match with_cluster_dimension(&centre, info(4, 0)) {
        Job::Single(single) => single,
        Job::Multi(_) => panic!("a cluster is a single job"),
    };
    let second = match with_cluster_dimension(&first, info(9, 20)) {
        Job::Single(single) => single,
        Job::Multi(_) => panic!("a cluster is a single job"),
    };

    assert_eq!(first.dimens.get_cluster(), Some(&vec![info(4, 0)]));
    assert_eq!(second.dimens.get_cluster(), Some(&vec![info(4, 0), info(9, 20)]));
    assert_eq!(second.places, centre.places);
    assert_eq!(second.dimens.id.as_deref(), Some("centre"));
    let mut changed = Dimensions::new();
    changed.set_cluster(vec![info(1, 1)]);
    assert_eq!(changed.get_cluster(), Some(&vec![info(1, 1)]));
}

#[test]
fn closed_cluster_ends_with_the_way_back() {
    let mut cluster = single(0, vec![place(Some(2), 100, vec![(0, 10)])]);
    cluster.dimens.set_cluster(vec![info(0, 0), info(9, 20)]);
    let copy = || Single { index: 0, places: vec![place(Some(2), 100, vec![(0, 10)])], dimens: cluster.dimens.copy(), root: None };

    let closed = finish_cluster(copy(), &VisitPolicy::ClosedContinuation);
    let open = finish_cluster(copy(), &VisitPolicy::OpenContinuation);
    let returning = finish_cluster(copy(), &VisitPolicy::Return);
    let alone = finish_cluster(single(0, vec![]), &VisitPolicy::ClosedContinuation);

    match closed {
        Job::Single(single) => {
            assert_eq!(single.places, vec![place(Some(2), 120, vec![(0, 10)])]);
            assert_eq!(single.dimens, cluster.dimens);
        }
        Job::Multi(_) => panic!("a cluster is a single job"),
    }
    assert_eq!(open, Job::Single(copy()));
    assert_eq!(returning, Job::Single(copy()));
    assert_eq!(alone, Job::Single(single(0, vec![])));
}
