use rosomaxa::extensions::create_typed_actor_groups;
use rosomaxa::format::solution::model::{Generation, Individual, Metrics, Population, Violation};
use rosomaxa::format::solution::writer::{
    calculate_load, create_extras, create_solution, create_tour, create_unassigned, create_violations, get_activity_type,
    get_capacity, has_multi_dimensional_capacity, map_code_reason, route_intervals, text_is,
    BREAK_CONSTRAINT_CODE, CAPACITY_CONSTRAINT_CODE,
};
use rosomaxa::format::time::{civil_time, format_civil, format_time, CivilTime};
use rosomaxa::models::common::{
    minus, plus, times, Demand, GeoLocation, MultiDimLoad, Schedule, SingleDimLoad, TimeWindow,
};
use rosomaxa::models::problem::{
    Actor, ActorDetail, Costs, Dimensions, Job, JobDemand, MatrixTransport, Multi, Single, Vehicle,
};
use rosomaxa::models::solution::{Activity, Commute, Place, Route, Tour};
use rosomaxa::models::{Problem, Solution};
use rosomaxa::solver::objectives::tour_order::ActivityConstraintViolation;
use rosomaxa::solver::objectives::TourOrder;

fn job(index: usize, id: &str, kind: &str, delivery: i32) -> Single {
    let mut dimens = Dimensions::new();
    dimens.id = Some(id.to_string());
    dimens.kind = Some(kind.to_string());
    if delivery != 0 {
        dimens.demand = Some(JobDemand::Single(Demand {
            pickup: (SingleDimLoad { value: 0 }, SingleDimLoad { value: 0 }),
            delivery: (SingleDimLoad { value: delivery }, SingleDimLoad { value: 0 }),
        }));
    }
    Single { index, places: vec![], dimens, root: None }
}

fn activity(location: usize, duration: i64, start: i64, schedule: (i64, i64), job: Option<Single>) -> Activity {
    Activity {
        place: Place { location, duration, time: TimeWindow { start, end: i64::MAX } },
        schedule: Schedule { arrival: schedule.0, departure: schedule.1 },
        job,
        commute: None,
    }
}

fn actor(type_id: &str, start: usize) -> Actor {
    let mut dimens = Dimensions::new();
    dimens.id = Some(format!("{}_1", type_id));
    dimens.type_id = Some(type_id.to_string());
    dimens.shift_index = Some(0);
    Actor {
        vehicle: Vehicle {
            costs: Costs { fixed: 100, per_distance: 2, per_driving_time: 3, per_waiting_time: 5, per_service_time: 7 },
            dimens,
        },
        detail: ActorDetail { start: Some(start), end: Some(start), time: TimeWindow { start: 0, end: 1000 } },
    }
}

fn line_problem() -> Problem {
    let size = 3;
    let matrix: Vec<i64> = (0..size * size).map(|at: i64| 10 * (at / size - at % size).abs()).collect();
    Problem {
        transport: MatrixTransport { size: size as usize, durations: matrix.clone(), distances: matrix },
        coord_index: (0..size).map(|at| GeoLocation { lat: at, lng: 0 }).collect(),
        capacity_type: Some("single".to_string()),
    }
}

fn with_order(index: usize, order: Option<i32>) -> Activity {
    let mut single = job(index, "job", "delivery", 0);
    single.dimens.order = order;
    activity(0, 0, 0, (0, 0), Some(single))
}

#[test]
fn formats_time_as_utc_text() {
    assert_eq!(format_time(0), "1970-01-01T00:00:00Z");
    assert_eq!(format_time(19), "1970-01-01T00:00:19Z");
    assert_eq!(format_time(86_399), "1970-01-01T23:59:59Z");
    assert_eq!(format_time(86_400), "1970-01-02T00:00:00Z");
    assert_eq!(format_time(951_782_400), "2000-02-29T00:00:00Z");
    assert_eq!(format_time(951_868_800), "2000-03-01T00:00:00Z");
    assert_eq!(format_time(1_709_251_199), "2024-02-29T23:59:59Z");
    assert_eq!(format_time(4_107_542_400), "2100-03-01T00:00:00Z");
    assert_eq!(format_time(1_234_567_890), "2009-02-13T23:31:30Z");
}

#[test]
fn formats_time_out_of_range_as_the_nearest() {
    assert_eq!(format_time(-1), "1970-01-01T00:00:00Z");
    assert_eq!(format_time(i64::MIN), "1970-01-01T00:00:00Z");
    assert_eq!(format_time(253_402_300_799), "9999-12-31T23:59:59Z");
    assert_eq!(format_time(253_402_300_800), "9999-12-31T23:59:59Z");
    assert_eq!(format_time(i64::MAX), "9999-12-31T23:59:59Z");
}

#[test]
fn splits_time_into_date_and_time_of_day() {
    let civil = civil_time(1_234_567_890);

    assert_eq!(civil, CivilTime { year: 2009, month: 2, day: 13, hour: 23, minute: 31, second: 30 });
    assert_eq!(format_civil(&civil), "2009-02-13T23:31:30Z");
    assert_eq!(civil_time(31_535_999), CivilTime { year: 1970, month: 12, day: 31, hour: 23, minute: 59, second: 59 });
}

#[test]
fn saturating_arithmetic_stays_in_range() {
    assert_eq!(plus(2, 3), 5);
    assert_eq!(plus(i64::MAX, 1), i64::MAX);
    assert_eq!(plus(i64::MIN, -1), i64::MIN);
    assert_eq!(minus(2, 3), -1);
    assert_eq!(minus(i64::MIN, 1), i64::MIN);
    assert_eq!(minus(0, i64::MIN), i64::MAX);
    assert_eq!(times(-4, 5), -20);
    assert_eq!(times(i64::MAX, 2), i64::MAX);
    assert_eq!(times(i64::MIN, 2), i64::MIN);
    assert_eq!(times(i64::MIN, -1), i64::MAX);
}

#[test]
fn loads_add_and_subtract_by_dimension() {
    let a = MultiDimLoad::new(vec![1, 2]);
    let b = MultiDimLoad::new(vec![10, 20, 30]);

    assert_eq!(a.plus(&b).load, vec![11, 22, 30]);
    assert_eq!(a.minus(&b).load, vec![-9, -18, -30]);
    assert_eq!(MultiDimLoad::new(vec![i32::MAX]).plus(&a).load, vec![i32::MAX, 2]);
    assert_eq!(MultiDimLoad::new(vec![i32::MIN]).minus(&a).load, vec![i32::MIN, -2]);
    assert_eq!(MultiDimLoad::empty().as_vec(), vec![0]);
    assert_eq!(b.as_vec(), vec![10, 20, 30]);
    assert_eq!(MultiDimLoad::zeros(3).load, vec![0, 0, 0]);
    assert_eq!(b.copy(), b);
}

#[test]
fn matrix_gives_durations_distances_and_costs() {
    let transport = MatrixTransport { size: 2, durations: vec![0, 3, 4, 0], distances: vec![0, 5, 6, 0] };
    let costs = Costs { fixed: 1, per_distance: 2, per_driving_time: 10, per_waiting_time: 0, per_service_time: 0 };

    assert_eq!(transport.duration(0, 1), 3);
    assert_eq!(transport.duration(1, 0), 4);
    assert_eq!(transport.distance(0, 1), 5);
    assert_eq!(transport.distance(2, 0), 0);
    assert_eq!(transport.cost(&costs, 0, 1), 40);
    assert_eq!(transport.cost(&costs, 1, 0), 52);
}

#[test]
fn commute_without_time_is_zero() {
    assert!(Commute { forward: (5, 0), backward: (7, 0) }.is_zero_time());
    assert!(!Commute { forward: (0, 1), backward: (0, 0) }.is_zero_time());
    assert!(!Commute { forward: (0, 0), backward: (0, -1) }.is_zero_time());
}

#[test]
fn activity_with_job_starts_at_the_origin() {
    let activity = Activity::new_with_job(job(3, "job1", "delivery", 1));

    assert_eq!(activity.place, Place { location: 0, duration: 0, time: TimeWindow { start: 0, end: i64::MAX } });
    assert_eq!(activity.schedule, Schedule { arrival: 0, departure: 0 });
    assert_eq!(activity.job.as_ref().map(|single| single.index), Some(3));
    assert_eq!(activity.commute, None);
}

#[test]
fn activity_knows_its_job() {
    let mut part = job(1, "part", "pickup", 0);
    part.root = Some(Multi { index: 7, dimens: Dimensions::new() });
    let of_multi = activity(0, 0, 0, (0, 0), Some(part));
    let of_single = activity(0, 0, 0, (0, 0), Some(job(1, "single", "pickup", 0)));
    let without = activity(0, 0, 0, (0, 0), None);

    assert_eq!(of_multi.retrieve_job(), Some(Job::Multi(Multi { index: 7, dimens: Dimensions::new() })));
    assert_eq!(of_single.retrieve_job(), Some(Job::Single(job(1, "single", "pickup", 0))));
    assert_eq!(without.retrieve_job(), None);
    assert!(of_multi.has_same_job(&Job::Multi(Multi { index: 7, dimens: Dimensions::new() })));
    assert!(!of_multi.has_same_job(&Job::Multi(Multi { index: 8, dimens: Dimensions::new() })));
    assert!(!of_multi.has_same_job(&Job::Single(job(1, "part", "pickup", 0))));
    assert!(of_single.has_same_job(&Job::Single(job(1, "other", "delivery", 5))));
    assert!(!of_single.has_same_job(&Job::Single(job(2, "single", "pickup", 0))));
    assert!(!of_single.has_same_job(&Job::Multi(Multi { index: 1, dimens: Dimensions::new() })));
    assert!(!without.has_same_job(&Job::Single(job(1, "single", "pickup", 0))));
}

#[test]
fn copies_are_deep_and_equal() {
    let mut with_commute = activity(2, 5, 1, (3, 9), Some(job(4, "job4", "service", 2)));
    with_commute.commute = Some(Commute { forward: (1, 2), backward: (3, 4) });
    let route = Route { actor: actor("car", 0), tour: Tour::new(vec![activity(0, 0, 0, (0, 0), None), with_commute]) };

    let copy = route.deep_copy();

    assert_eq!(copy, route);
    assert_eq!(route.tour.activities[1].deep_copy(), route.tour.activities[1]);
    assert_eq!(route.tour.total(), 2);
    assert_eq!(route.tour.start().map(|start| start.place.location), Some(0));
    assert!(route.tour.get(2).is_none());
    assert_eq!(Tour::new(vec![]).start(), None);
}

#[test]
fn reports_a_tour_with_reload_and_waiting() {
    let problem = line_problem();
    let route = Route {
        actor: actor("truck", 0),
        tour: Tour::new(vec![
            activity(0, 0, 0, (0, 0), None),
            activity(1, 5, 0, (10, 15), Some(job(0, "a", "delivery", 2))),
            activity(0, 2, 0, (25, 27), Some(job(1, "r", "reload", 0))),
            activity(2, 5, 50, (47, 55), Some(job(2, "b", "delivery", 3))),
            activity(0, 0, 0, (75, 75), None),
        ]),
    };
    assert_eq!(route_intervals(&route), vec![(0, 1), (2, 4)]);

    let tour = create_tour(&problem, &route);

    assert_eq!(tour.vehicle_id, "truck_1");
    assert_eq!(tour.type_id, "truck");
    assert_eq!(tour.shift_index, 0);
    assert_eq!((tour.statistic.cost, tour.statistic.distance, tour.statistic.duration), (499, 60, 75));
    let spent = tour.statistic.times;
    assert_eq!((spent.driving, spent.serving, spent.waiting, spent.break_time, spent.commuting), (60, 12, 3, 0, 0));
    let stops: Vec<_> = tour
        .stops
        .iter()
        .map(|stop| (stop.location.lat, stop.distance, stop.load.clone(), stop.activities[0].job_id.as_str()))
        .collect();
    assert_eq!(
        stops,
        vec![
            (0, 0, vec![2], "departure"),
            (1, 10, vec![0], "a"),
            (0, 20, vec![3], "reload"),
            (2, 40, vec![0], "b"),
            (0, 60, vec![0], "arrival"),
        ]
    );
    assert_eq!(tour.stops[3].time.arrival, "1970-01-01T00:00:47Z");
    assert_eq!(tour.stops[3].time.departure, "1970-01-01T00:00:55Z");
    assert!(tour.stops.iter().all(|stop| stop.activities.len() == 1));
    assert!(tour.stops.iter().all(|stop| stop.activities[0].time.is_none() && stop.activities[0].location.is_none()));
}

#[test]
fn reports_activities_at_one_stop_together() {
    let problem = line_problem();
    let mut second = job(1, "b", "pickup", 0);
    second.dimens.tag = Some("fragile".to_string());
    let mut commuting = activity(1, 2, 0, (20, 30), Some(second));
    commuting.commute = Some(Commute { forward: (1, 3), backward: (1, 3) });
    let route = Route {
        actor: actor("truck", 0),
        tour: Tour::new(vec![
            activity(0, 0, 0, (0, 0), None),
            activity(1, 5, 0, (10, 15), Some(job(0, "a", "service", 0))),
            commuting,
            activity(0, 0, 0, (40, 40), None),
        ]),
    };

    let tour = create_tour(&problem, &route);

    assert_eq!(tour.stops.len(), 3);
    let shared = &tour.stops[1];
    assert_eq!(shared.activities.iter().map(|a| a.job_id.as_str()).collect::<Vec<_>>(), vec!["a", "b"]);
    assert_eq!(shared.time.arrival, "1970-01-01T00:00:10Z");
    assert_eq!(shared.time.departure, "1970-01-01T00:00:30Z");
    assert_eq!(shared.activities[1].job_tag.as_deref(), Some("fragile"));
    let interval = shared.activities[1].time.as_ref().expect("a stop with two activities tells their times");
    assert_eq!((interval.start.as_str(), interval.end.as_str()), ("1970-01-01T00:00:23Z", "1970-01-01T00:00:27Z"));
    let commute = shared.activities[1].commute.as_ref().expect("the commute is reported");
    assert_eq!(commute.forward.distance, 1);
    assert_eq!(commute.forward.time.end, "1970-01-01T00:00:23Z");
    assert_eq!(commute.backward.time.end, "1970-01-01T00:00:30Z");
    // driving 10 + 0 + 10, serving 5 + 2, commuting 6
    let spent = tour.statistic.times;
    assert_eq!((spent.driving, spent.serving, spent.commuting), (20, 7, 6));
    // 100 fixed, 35 + 50 for the first job, 14 + 42 for the second, 50 for the way back
    assert_eq!(tour.statistic.cost, 291);
}

#[test]
fn capacity_follows_the_capacity_type() {
    let single = job(0, "a", "delivery", 2);
    let mut multi = Dimensions::new();
    multi.demand = Some(JobDemand::Multi(Demand {
        pickup: (MultiDimLoad::new(vec![1, 2]), MultiDimLoad::empty()),
        delivery: (MultiDimLoad::empty(), MultiDimLoad::empty()),
    }));

    let widened = get_capacity(&single.dimens, false).expect("a demand in one dimension");
    assert_eq!(widened.delivery.0.load, vec![2]);
    assert_eq!(widened.pickup.0.load, Vec::<i32>::new());
    assert!(get_capacity(&single.dimens, true).is_none());
    assert_eq!(get_capacity(&multi, true).expect("a demand in two dimensions").pickup.0.load, vec![1, 2]);
    assert!(get_capacity(&multi, false).is_none());
    assert!(get_capacity(&Dimensions::new(), false).is_none());
    assert!(has_multi_dimensional_capacity(&Some("multi".to_string())));
    assert!(!has_multi_dimensional_capacity(&Some("single".to_string())));
    let act = activity(0, 0, 0, (0, 0), Some(single));
    assert_eq!(calculate_load(MultiDimLoad::new(vec![5]), &act, false).load, vec![3]);
    assert_eq!(get_activity_type(&act).map(|kind| kind.as_str()), Some("delivery"));
    assert!(text_is(&"reload".to_string(), "reload"));
    assert!(!text_is(&"reload".to_string(), "break"));
}

#[test]
fn unassigned_jobs_and_violations_are_reported() {
    let mut bound = job(1, "break", "break", 0);
    bound.dimens.vehicle_id = Some("car_1".to_string());
    bound.dimens.shift_index = Some(2);
    let unassigned = vec![(Job::Single(job(0, "job1", "delivery", 1)), CAPACITY_CONSTRAINT_CODE), (Job::Single(bound), BREAK_CONSTRAINT_CODE)];

    let jobs = create_unassigned(&unassigned).expect("one job is bound to no vehicle");
    let violations = create_violations(&unassigned).expect("one break is unassigned");

    assert_eq!(jobs.len(), 1);
    assert_eq!(jobs[0].job_id, "job1");
    assert_eq!(jobs[0].reasons[0].code, "CAPACITY_CONSTRAINT");
    assert_eq!(jobs[0].reasons[0].description, "does not fit into any vehicle due to capacity");
    assert_eq!(violations, vec![Violation::Break { vehicle_id: "car_1".to_string(), shift_index: 2 }]);
    assert!(create_unassigned(&vec![]).is_none());
    assert!(create_violations(&vec![]).is_none());
    assert_eq!(map_code_reason(1), ("TIME_WINDOW_CONSTRAINT", "cannot be visited within time window"));
    assert_eq!(map_code_reason(3), ("SHIFT_TIME_CONSTRAINT", "cannot be assigned due to shift time constraint of vehicle"));
    assert_eq!(map_code_reason(5), ("BREAK_CONSTRAINT", "break is not assignable"));
    assert_eq!(map_code_reason(7), ("LOCKING_CONSTRAINT", "cannot be served due to relation lock"));
    assert_eq!(map_code_reason(8), ("REACHABLE_CONSTRAINT", "location unreachable"));
    assert_eq!(map_code_reason(99), ("NO_REASON_FOUND", "unknown"));
}

#[test]
fn extras_hold_a_copy_of_the_metrics() {
    let metrics = Metrics {
        duration: 10,
        generations: 2,
        speed: 200,
        evolution: vec![Generation {
            number: 1,
            timestamp: 5,
            i_all_ratio: 500_000,
            i_1000_ratio: 250_000,
            is_improvement: true,
            population: Population {
                individuals: vec![Individual { tours: 1, unassigned: 0, cost: 42, improvement: 0, fitness: vec![0, 1, 42] }],
            },
        }],
    };

    let extras = create_extras(Some(&metrics)).expect("metrics were given");

    assert_eq!(extras.metrics, Some(metrics));
    assert!(create_extras(None).is_none());
}

#[test]
fn tour_order_counts_and_judges_disorder() {
    let first = with_order(0, Some(1));
    let second = with_order(1, Some(2));
    let unordered = with_order(2, None);
    let depot = activity(0, 0, 0, (0, 0), None);

    assert_eq!(TourOrder::evaluate_activity(&first, &second, None, 9), None);
    assert_eq!(
        TourOrder::evaluate_activity(&second, &first, None, 9),
        Some(ActivityConstraintViolation { code: 9, stopped: true })
    );
    assert_eq!(
        TourOrder::evaluate_activity(&depot, &second, Some(&first), 9),
        Some(ActivityConstraintViolation { code: 9, stopped: false })
    );
    assert_eq!(
        TourOrder::evaluate_activity(&first, &unordered, Some(&second), 9),
        Some(ActivityConstraintViolation { code: 9, stopped: false })
    );
    assert_eq!(TourOrder::evaluate_activity(&depot, &second, None, 9), None);
    assert_eq!(TourOrder::estimate_activity(&second, &first, None, 50), 100);
    assert_eq!(TourOrder::estimate_activity(&second, &first, None, 0), 1_000_000_000);
    assert_eq!(TourOrder::estimate_activity(&first, &second, None, 50), 0);
    assert_eq!(TourOrder::find_disorder(&second, &first, None), Some((2, 1, true)));

    let route = |orders: Vec<Option<i32>>| Route {
        actor: actor("car", 0),
        tour: Tour::new(
            std::iter::once(activity(0, 0, 0, (0, 0), None))
                .chain(orders.into_iter().enumerate().map(|(index, order)| with_order(index, order)))
                .collect(),
        ),
    };
    assert_eq!(TourOrder::get_violations(&vec![route(vec![Some(1), Some(2), None])]), 0);
    assert_eq!(TourOrder::get_violations(&vec![route(vec![Some(2), Some(1), None, Some(3)])]), 2);
    assert_eq!(TourOrder::get_violations(&vec![route(vec![Some(3), Some(2)]), route(vec![Some(2), Some(1), Some(0)])]), 3);
    assert_eq!(TourOrder::get_violations(&vec![]), 0);
}

#[test]
fn tour_order_merges_jobs_of_the_same_order() {
    let ordered = |index: usize, order: Option<i32>| {
        let mut single = job(index, "job", "delivery", 0);
        single.dimens.order = order;
        Job::Single(single)
    };

    assert_eq!(TourOrder::merge(ordered(0, Some(1)), ordered(1, Some(1)), 5), Ok(ordered(0, Some(1))));
    assert_eq!(TourOrder::merge(ordered(0, None), ordered(1, None), 5), Ok(ordered(0, None)));
    assert_eq!(TourOrder::merge(ordered(0, Some(1)), ordered(1, Some(2)), 5), Err(5));
    assert_eq!(TourOrder::merge(ordered(0, Some(1)), ordered(1, None), 5), Err(5));
    assert_eq!(
        TourOrder::merge(ordered(0, Some(1)), Job::Multi(Multi { index: 1, dimens: Dimensions::new() }), -1),
        Err(-1)
    );
}

#[test]
fn actors_of_one_type_share_a_group() {
    let mut other_shift = actor("car", 0);
    other_shift.detail.time = TimeWindow { start: 500, end: 1000 };
    let actors = vec![actor("car", 0), actor("truck", 0), actor("car", 0), actor("car", 1), other_shift, actor("truck", 0)];

    let groups = create_typed_actor_groups(&actors);

    assert_eq!(groups.total, 6);
    assert_eq!(groups.get(0), groups.get(2));
    assert_eq!(groups.get(1), groups.get(5));
    let mut distinct = vec![groups.get(0), groups.get(1), groups.get(3), groups.get(4)];
    distinct.sort();
    distinct.dedup();
    assert_eq!(distinct, vec![0, 1, 2, 3]);
    assert_eq!(create_typed_actor_groups(&vec![]).total, 0);
}

#[test]
fn report_holds_extras_only_with_metrics() {
    let problem = line_problem();
    let solution = Solution {
        routes: vec![Route {
            actor: actor("truck", 0),
            tour: Tour::new(vec![activity(0, 0, 0, (0, 0), None), activity(0, 0, 0, (5, 5), None)]),
        }],
        unassigned: vec![],
    };
    let metrics = Metrics { duration: 1, generations: 2, speed: 3, evolution: vec![] };

    let without = create_solution(&problem, &solution, None);
    let with = create_solution(&problem, &solution, Some(&metrics));

    assert_eq!(without.extras, None);
    assert_eq!(with.extras.map(|extras| extras.metrics), Some(Some(metrics)));
    assert_eq!(without.tours.len(), 1);
    assert_eq!(without.statistic, without.tours[0].statistic);
    assert_eq!((without.statistic.cost, without.statistic.duration), (100, 5));
    assert_eq!(without.unassigned, None);
    assert_eq!(without.violations, None);
}

#[test]
fn reload_at_the_start_closes_no_part() {
    let route = Route {
        actor: actor("truck", 0),
        tour: Tour::new(vec![
            activity(0, 0, 0, (0, 0), Some(job(0, "r", "reload", 0))),
            activity(1, 0, 0, (10, 10), Some(job(1, "a", "delivery", 1))),
            activity(0, 0, 0, (20, 20), Some(job(2, "s", "reload", 0))),
        ]),
    };

    assert_eq!(route_intervals(&route), vec![(0, 2)]);
}
