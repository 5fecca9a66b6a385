use vrp_core::limits::{
    check_limits, i64_to_string, usize_to_string, ActivityType, CheckerContext, Fleet, Problem,
    Solution, Statistic, Stop, StopActivity, Tour, VehicleLimits, VehicleType,
};

fn create_default_vehicle_type() -> VehicleType {
    VehicleType {
        vehicle_ids: vec!["my_vehicle_1".to_string()],
        limits: None,
    }
}

fn create_default_profiles() -> Vec<String> {
    vec!["car".to_string()]
}

fn create_empty_problem() -> Problem {
    Problem {
        fleet: Fleet {
            vehicles: vec![],
            profiles: vec![],
        },
    }
}

fn create_empty_tour() -> Tour {
    Tour {
        vehicle_id: String::new(),
        type_id: String::new(),
        shift_index: 0,
        stops: vec![],
        statistic: Statistic::default(),
    }
}

fn create_empty_solution() -> Solution {
    Solution { tours: vec![] }
}

fn create_test_problem(limits: Option<VehicleLimits>) -> Problem {
    Problem {
        fleet: Fleet {
            vehicles: vec![VehicleType {
                vehicle_ids: vec!["some_real_vehicle".to_string()],
                limits,
                ..create_default_vehicle_type()
            }],
            profiles: create_default_profiles(),
        },
        ..create_empty_problem()
    }
}

fn create_test_solution(statistic: Statistic, stops: Vec<Stop>) -> Solution {
    Solution {
        tours: vec![Tour {
            vehicle_id: "some_real_vehicle".to_string(),
            type_id: "my_vehicle".to_string(),
            shift_index: 0,
            stops,
            statistic,
            ..create_empty_tour()
        }],
        ..create_empty_solution()
    }
}

fn parse_activity_type(name: &str) -> ActivityType {
    match name {
        "departure" => ActivityType::Departure,
        "arrival" => ActivityType::Arrival,
        "delivery" => ActivityType::Delivery,
        "pickup" => ActivityType::Pickup,
        _ => ActivityType::Other,
    }
}

fn create_stop_with_activity(
    job_id: &str,
    activity_type: &str,
    location: (i64, i64),
    load: i64,
    time: (i64, i64),
    distance: i64,
) -> Stop {
    Stop {
        lat: location.0,
        lng: location.1,
        load,
        arrival: time.0,
        departure: time.1,
        distance,
        activities: vec![StopActivity {
            job_id: job_id.to_string(),
            activity_type: parse_activity_type(activity_type),
        }],
    }
}

fn can_check_shift_and_distance_limit_impl(
    max_distance: Option<i64>,
    shift_time: Option<i64>,
    actual: i64,
    expected: Result<(), String>,
) {
    let problem = create_test_problem(Some(VehicleLimits {
        max_distance,
        shift_time,
        tour_size: None,
        allowed_areas: None,
    }));
    let solution = create_test_solution(
        Statistic {
            distance: actual,
            duration: actual,
            ..Statistic::default()
        },
        vec![],
    );

    let result = check_limits(&CheckerContext::new(problem, solution));

    assert_eq!(result, expected);
}

fn limit_violation_message(prefix: &str, limit: i64, actual: i64) -> String {
    format!(
        "{} violation, expected: not more than {}, got: {}, vehicle id 'some_real_vehicle', shift index: 0",
        prefix, limit, actual,
    )
}

#[test]
fn can_check_shift_and_distance_limit_case_01() {
    can_check_shift_and_distance_limit_impl(
        Some(10),
        None,
        11,
        Err(limit_violation_message("max distance limit", 10, 11)),
    );
}

#[test]
fn can_check_shift_and_distance_limit_case_02() {
    can_check_shift_and_distance_limit_impl(Some(10), None, 10, Ok(()));
}

#[test]
fn can_check_shift_and_distance_limit_case_03() {
    can_check_shift_and_distance_limit_impl(Some(10), None, 9, Ok(()));
}

#[test]
fn can_check_shift_and_distance_limit_case_04() {
    can_check_shift_and_distance_limit_impl(
        None,
        Some(10),
        11,
        Err(limit_violation_message("shift time limit", 10, 11)),
    );
}

#[test]
fn can_check_shift_and_distance_limit_case_05() {
    can_check_shift_and_distance_limit_impl(None, Some(10), 10, Ok(()));
}

#[test]
fn can_check_shift_and_distance_limit_case_06() {
    can_check_shift_and_distance_limit_impl(None, Some(10), 9, Ok(()));
}

#[test]
fn can_check_shift_and_distance_limit_case_07() {
    can_check_shift_and_distance_limit_impl(None, None, i64::max_value(), Ok(()));
}

#[test]
pub fn can_check_tour_size_limit() {
    let problem = create_test_problem(Some(VehicleLimits {
        max_distance: None,
        shift_time: None,
        tour_size: Some(2),
        allowed_areas: None,
    }));
    let solution = create_test_solution(
        Statistic::default(),
        vec![
            create_stop_with_activity("departure", "departure", (0, 0), 3, (0, 0), 0),
            create_stop_with_activity("job1", "delivery", (1, 0), 2, (1, 1), 1),
            create_stop_with_activity("job2", "delivery", (2, 0), 1, (2, 2), 2),
            create_stop_with_activity("job3", "delivery", (3, 0), 0, (3, 3), 3),
            create_stop_with_activity("arrival", "arrival", (0, 0), 0, (6, 6), 6),
        ],
    );

    let result = check_limits(&CheckerContext::new(problem, solution));

    assert_eq!(
        result,
        Err("tour size limit violation, expected: not more than 2, got: 3, vehicle id 'some_real_vehicle', shift index: 0"
            .to_string())
    );
}

#[test]
fn can_format_numbers_in_decimal() {
    assert_eq!(i64_to_string(0).as_str(), "0");
    assert_eq!(i64_to_string(123).as_str(), "123");
    assert_eq!(i64_to_string(-45).as_str(), "-45");
    assert_eq!(i64_to_string(10).as_str(), "10");
    assert_eq!(usize_to_string(100000).as_str(), "100000");
}

#[test]
fn can_skip_unknown_vehicles() {
    let problem = create_test_problem(Some(VehicleLimits {
        max_distance: Some(1),
        shift_time: None,
        tour_size: None,
        allowed_areas: None,
    }));
    let mut solution = create_test_solution(
        Statistic {
            distance: 100,
            duration: 100,
            ..Statistic::default()
        },
        vec![],
    );
    solution.tours[0].vehicle_id = "unknown_vehicle".to_string();

    let result = check_limits(&CheckerContext::new(problem, solution));

    assert_eq!(result, Ok(()));
}
