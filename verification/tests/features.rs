use rosomaxa::format::solution::model::{
    Activity as ApiActivity, Schedule as ApiSchedule, Solution as ApiSolution, Statistic, Stop,
    Timing, Tour as ApiTour, UnassignedJob, UnassignedJobReason,
};
use rosomaxa::format::solution::writer::{
    create_solution, DISTANCE_LIMIT_CONSTRAINT_CODE, SKILL_CONSTRAINT_CODE,
};
use rosomaxa::models::common::{
    Demand, GeoLocation, Schedule, SingleDimLoad, TimeWindow,
};
use rosomaxa::models::problem::{
    Actor, ActorDetail, Costs, Dimensions, Job, JobDemand, MatrixTransport, Single, Vehicle,
};
use rosomaxa::models::solution::{Activity, Place, Route, Tour};
use rosomaxa::models::{Problem, Solution};

fn create_empty_solution() -> ApiSolution {
    ApiSolution {
        statistic: Statistic::default(),
        tours: vec![],
        unassigned: None,
        violations: None,
        extras: None,
    }
}

fn create_default_costs() -> Costs {
    Costs { fixed: 10, per_distance: 1, per_driving_time: 1, per_waiting_time: 1, per_service_time: 1 }
}

fn create_vehicle(id: &str, type_id: &str) -> Actor {
    let mut dimens = Dimensions::new();
    dimens.id = Some(id.to_string());
    dimens.type_id = Some(type_id.to_string());
    dimens.shift_index = Some(0);
    Actor {
        vehicle: Vehicle { costs: create_default_costs(), dimens },
        detail: ActorDetail { start: Some(1), end: Some(1), time: TimeWindow { start: 0, end: 1000 } },
    }
}

fn create_delivery_job(index: usize, id: &str) -> Single {
    let mut dimens = Dimensions::new();
    dimens.id = Some(id.to_string());
    dimens.kind = Some("delivery".to_string());
    dimens.demand = Some(JobDemand::Single(Demand {
        pickup: (SingleDimLoad { value: 0 }, SingleDimLoad { value: 0 }),
        delivery: (SingleDimLoad { value: 1 }, SingleDimLoad { value: 0 }),
    }));
    Single { index, places: vec![], dimens, root: None }
}

fn create_matrix_problem(coords: Vec<(i64, i64)>, travel_times: Vec<i64>, distances: Vec<i64>) -> Problem {
    Problem {
        transport: MatrixTransport { size: coords.len(), durations: travel_times, distances },
        coord_index: coords.into_iter().map(|(lat, lng)| GeoLocation { lat, lng }).collect(),
        capacity_type: Some("single".to_string()),
    }
}

fn create_stop_with_activity(
    id: &str,
    activity_type: &str,
    location: (i64, i64),
    load: i32,
    distance: i64,
    time: (&str, &str),
) -> Stop {
    Stop {
        location: GeoLocation { lat: location.0, lng: location.1 },
        time: ApiSchedule { arrival: time.0.to_string(), departure: time.1.to_string() },
        distance,
        load: vec![load],
        activities: vec![ApiActivity {
            job_id: id.to_string(),
            activity_type: activity_type.to_string(),
            location: None,
            time: None,
            job_tag: None,
            commute: None,
        }],
    }
}

fn terminal(location: usize, time: i64) -> Activity {
    Activity {
        place: Place { location, duration: 0, time: TimeWindow { start: 0, end: i64::MAX } },
        schedule: Schedule { arrival: time, departure: time },
        job: None,
        commute: None,
    }
}

#[test]
fn can_limit_by_max_distance() {
    // job1 lies 100 away from the depot and back, farther than the only vehicle may drive
    let problem = create_matrix_problem(vec![(100, 0), (0, 0)], vec![1, 1, 1, 1], vec![1, 100, 100, 1]);
    let solution = Solution {
        routes: vec![],
        unassigned: vec![(Job::Single(create_delivery_job(0, "job1")), DISTANCE_LIMIT_CONSTRAINT_CODE)],
    };

    let solution = create_solution(&problem, &solution, None);

    assert_eq!(
        solution,
        ApiSolution {
            statistic: Statistic {
                cost: 0,
                distance: 0,
                duration: 0,
                times: Timing { driving: 0, serving: 0, ..Timing::default() },
            },
            tours: vec![],
            unassigned: Some(vec![UnassignedJob {
                job_id: "job1".to_string(),
                reasons: vec![UnassignedJobReason {
                    code: "MAX_DISTANCE_CONSTRAINT".to_string(),
                    description: "cannot be assigned due to max distance constraint of vehicle".to_string()
                }]
            }]),
            ..create_empty_solution()
        }
    );
}

#[test]
fn can_have_unassigned_due_to_missing_vehicle_skill() {
    // job1 asks for a skill that no vehicle has
    let problem = create_matrix_problem(vec![(1, 0), (0, 0)], vec![0, 1, 1, 0], vec![0, 1, 1, 0]);
    let mut job = create_delivery_job(0, "job1");
    job.dimens.tag = Some("unique_skill".to_string());
    let solution = Solution { routes: vec![], unassigned: vec![(Job::Single(job), SKILL_CONSTRAINT_CODE)] };

    let solution = create_solution(&problem, &solution, None);

    assert_eq!(
        solution,
        ApiSolution {
            statistic: Statistic {
                cost: 0,
                distance: 0,
                duration: 0,
                times: Timing { driving: 0, serving: 0, waiting: 0, break_time: 0, commuting: 0 },
            },
            tours: vec![],
            unassigned: Some(vec![UnassignedJob {
                job_id: "job1".to_string(),
                reasons: vec![UnassignedJobReason {
                    code: "SKILL_CONSTRAINT".to_string(),
                    description: "cannot serve required skill".to_string()
                }]
            }]),
            ..create_empty_solution()
        }
    );
}

#[test]
fn can_wait_for_job_start() {
    // location 0 is job1 at (1, 0), location 1 the depot at (10, 0)
    let problem = create_matrix_problem(vec![(1, 0), (10, 0)], vec![0, 9, 9, 0], vec![0, 9, 9, 0]);
    let job = create_delivery_job(0, "job1");
    let route = Route {
        actor: create_vehicle("vehicle_with_skill_1", "vehicle_with_skill"),
        tour: Tour::new(vec![
            terminal(1, 0),
            Activity {
                place: Place { location: 0, duration: 1, time: TimeWindow { start: 0, end: i64::MAX } },
                schedule: Schedule { arrival: 9, departure: 10 },
                job: Some(job),
                commute: None,
            },
            terminal(1, 19),
        ]),
    };
    let solution = Solution { routes: vec![route], unassigned: vec![] };

    let solution = create_solution(&problem, &solution, None);

    assert_eq!(
        solution,
        ApiSolution {
            statistic: Statistic {
                cost: 47,
                distance: 18,
                duration: 19,
                times: Timing { driving: 18, serving: 1, waiting: 0, break_time: 0, commuting: 0 },
            },
            tours: vec![ApiTour {
                vehicle_id: "vehicle_with_skill_1".to_string(),
                type_id: "vehicle_with_skill".to_string(),
                shift_index: 0,
                stops: vec![
                    create_stop_with_activity(
                        "departure",
                        "departure",
                        (10, 0),
                        1,
                        0,
                        ("1970-01-01T00:00:00Z", "1970-01-01T00:00:00Z"),
                    ),
                    create_stop_with_activity(
                        "job1",
                        "delivery",
                        (1, 0),
                        0,
                        9,
                        ("1970-01-01T00:00:09Z", "1970-01-01T00:00:10Z"),
                    ),
                    create_stop_with_activity(
                        "arrival",
                        "arrival",
                        (10, 0),
                        0,
                        18,
                        ("1970-01-01T00:00:19Z", "1970-01-01T00:00:19Z"),
                    )
                ],
                statistic: Statistic {
                    cost: 47,
                    distance: 18,
                    duration: 19,
                    times: Timing { driving: 18, serving: 1, waiting: 0, break_time: 0, commuting: 0 },
                },
            }],
            unassigned: None,
            violations: None,
            extras: None,
        }
    );
}
