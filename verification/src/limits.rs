//! Solution checker for vehicle limits: maximum travelled distance, maximum
//! shift time and maximum tour size, validated against the statistics and
//! stops of each tour of a finished solution.

use vstd::prelude::*;

verus! {

/// Relies on String::push_str of std: appends the given string slice onto
/// the end of the string.
pub assume_specification[ String::push_str ](s: &mut String, other: &str)
    ensures
        final(s)@ == old(s)@ + other@,
;

/// Relies on String::push of std: appends the given character onto the end
/// of the string.
pub assume_specification[ String::push ](s: &mut String, ch: char)
    ensures
        final(s)@ == old(s)@.push(ch),
;

/// The decimal digit character of `d`.
pub open spec fn dec_digit(d: int) -> char {
    if d == 0 {
        '0'
    } else if d == 1 {
        '1'
    } else if d == 2 {
        '2'
    } else if d == 3 {
        '3'
    } else if d == 4 {
        '4'
    } else if d == 5 {
        '5'
    } else if d == 6 {
        '6'
    } else if d == 7 {
        '7'
    } else if d == 8 {
        '8'
    } else {
        '9'
    }
}

/// The decimal digit sequence of a nonnegative integer.
pub open spec fn dec_str(n: int) -> Seq<char>
    decreases n,
{
    if n < 10 {
        seq![dec_digit(n)]
    } else {
        dec_str(n / 10).push(dec_digit(n % 10))
    }
}

/// The decimal rendering of an integer, a minus sign included when negative.
pub open spec fn dec_int(n: int) -> Seq<char> {
    if n < 0 {
        seq!['-'] + dec_str(-n)
    } else {
        dec_str(n)
    }
}

/// Writes a nonnegative number in decimal.
fn dec_u128_to_string(n: u128) -> (r: String)
    ensures
        r@ == dec_str(n as int),
    decreases n,
{
    let d = (n % 10) as u8;
    let ch = match d {
        0 => '0',
        1 => '1',
        2 => '2',
        3 => '3',
        4 => '4',
        5 => '5',
        6 => '6',
        7 => '7',
        8 => '8',
        _ => '9',
    };
    assert(ch == dec_digit(n as int % 10));
    if n < 10 {
        let mut r = String::new();
        r.push(ch);
        assert(r@ =~= dec_str(n as int));
        r
    } else {
        let mut r = dec_u128_to_string(n / 10);
        r.push(ch);
        assert(r@ =~= dec_str(n as int));
        r
    }
}

/// Writes a signed number in decimal.
pub fn i64_to_string(n: i64) -> (r: String)
    ensures
        r@ == dec_int(n as int),
{
    if n >= 0 {
        dec_u128_to_string(n as u128)
    } else {
        let magnitude = (-(n as i128)) as u128;
        let mut r = String::new();
        r.push('-');
        let digits = dec_u128_to_string(magnitude);
        r.push_str(digits.as_str());
        assert(r@ =~= dec_int(n as int));
        r
    }
}

/// Writes an unsigned machine word in decimal.
pub fn usize_to_string(n: usize) -> (r: String)
    ensures
        r@ == dec_str(n as int),
{
    dec_u128_to_string(n as u128)
}

/// What a stop's activity does: board terminals are departure and arrival,
/// everything else serves a job.
#[derive(Clone, Copy, PartialEq, Eq, Structural, Debug)]
pub enum ActivityType {
    Departure,
    Arrival,
    Delivery,
    Pickup,
    Other,
}

/// One activity performed at a stop.
#[derive(Clone, PartialEq, Eq, Debug)]
pub struct StopActivity {
    pub job_id: String,
    pub activity_type: ActivityType,
}

/// One stop of a finished tour.
#[derive(Clone, PartialEq, Eq, Debug)]
pub struct Stop {
    pub lat: i64,
    pub lng: i64,
    pub load: i64,
    pub arrival: i64,
    pub departure: i64,
    pub distance: i64,
    pub activities: Vec<StopActivity>,
}

/// Aggregated figures of one tour or of a whole solution.
#[derive(Clone, Copy, PartialEq, Eq, Structural, Debug)]
pub struct Statistic {
    pub cost: i64,
    pub distance: i64,
    pub duration: i64,
    pub driving: i64,
    pub serving: i64,
    pub waiting: i64,
    pub break_time: i64,
}

impl Default for Statistic {
    /// The all-zero statistic.
    fn default() -> (r: Statistic)
        ensures
            r == (Statistic {
                cost: 0,
                distance: 0,
                duration: 0,
                driving: 0,
                serving: 0,
                waiting: 0,
                break_time: 0,
            }),
    {
        Statistic {
            cost: 0,
            distance: 0,
            duration: 0,
            driving: 0,
            serving: 0,
            waiting: 0,
            break_time: 0,
        }
    }
}

/// Caps a vehicle may not exceed.
#[derive(Clone, PartialEq, Eq, Debug)]
pub struct VehicleLimits {
    pub max_distance: Option<i64>,
    pub shift_time: Option<i64>,
    pub tour_size: Option<usize>,
    pub allowed_areas: Option<Vec<usize>>,
}

/// One vehicle type of the fleet, with the identifiers of its vehicles.
#[derive(Clone, PartialEq, Eq, Debug)]
pub struct VehicleType {
    pub vehicle_ids: Vec<String>,
    pub limits: Option<VehicleLimits>,
}

/// The fleet of the problem under check.
#[derive(Clone, PartialEq, Eq, Debug)]
pub struct Fleet {
    pub vehicles: Vec<VehicleType>,
    pub profiles: Vec<String>,
}

/// The problem document a solution is checked against.
#[derive(Clone, PartialEq, Eq, Debug)]
pub struct Problem {
    pub fleet: Fleet,
}

/// One vehicle's tour of a finished solution.
#[derive(Clone, PartialEq, Eq, Debug)]
pub struct Tour {
    pub vehicle_id: String,
    pub type_id: String,
    pub shift_index: usize,
    pub stops: Vec<Stop>,
    pub statistic: Statistic,
}

/// A finished solution under check.
#[derive(Clone, PartialEq, Eq, Debug)]
pub struct Solution {
    pub tours: Vec<Tour>,
}

/// Everything the limits check needs: the problem and the solution.
#[derive(Clone, PartialEq, Eq, Debug)]
pub struct CheckerContext {
    pub problem: Problem,
    pub solution: Solution,
}

impl CheckerContext {
    /// Pairs a problem with the solution to check.
    pub fn new(problem: Problem, solution: Solution) -> (r: CheckerContext)
        ensures
            r.problem == problem,
            r.solution == solution,
    {
        CheckerContext { problem, solution }
    }
}

/// Whether the stop only boards or leaves the vehicle at a terminal.
pub open spec fn is_terminal_stop(s: Stop) -> bool {
    forall|i: int|
        0 <= i < s.activities@.len() ==> (#[trigger] s.activities@[i]).activity_type
            == ActivityType::Departure || s.activities@[i].activity_type == ActivityType::Arrival
}

/// How many job-serving stops a tour has.
pub open spec fn job_stop_count(stops: Seq<Stop>) -> int
    decreases stops.len(),
{
    if stops.len() == 0 {
        0
    } else {
        job_stop_count(stops.drop_last()) + if is_terminal_stop(stops.last()) {
            0int
        } else {
            1int
        }
    }
}

/// The first vehicle type of `vehicles` owning the vehicle `id`, if any.
pub open spec fn vehicle_type_index(vehicles: Seq<VehicleType>, id: Seq<char>, i: int) -> int
    decreases vehicles.len() - i,
{
    if i < 0 || i >= vehicles.len() {
        -1
    } else if exists|j: int|
        0 <= j < vehicles[i].vehicle_ids@.len() && (#[trigger] vehicles[i].vehicle_ids@[j])@ == id {
        i
    } else {
        vehicle_type_index(vehicles, id, i + 1)
    }
}

/// The message of one limit violation.
pub open spec fn limit_message(
    kind: Seq<char>,
    expected: Seq<char>,
    got: Seq<char>,
    vehicle_id: Seq<char>,
    shift_index: Seq<char>,
) -> Seq<char> {
    kind + " violation, expected: not more than "@ + expected + ", got: "@ + got
        + ", vehicle id '"@ + vehicle_id + "', shift index: "@ + shift_index
}

/// The violation of `tour` against the limits of its vehicle type, if any:
/// first the distance cap, then the shift time cap, then the tour size cap.
pub open spec fn tour_limit_error(vehicles: Seq<VehicleType>, tour: Tour) -> Option<Seq<char>> {
    let idx = vehicle_type_index(vehicles, tour.vehicle_id@, 0);
    if idx < 0 {
        None
    } else {
        match vehicles[idx].limits {
            None => None,
            Some(limits) => {
                if limits.max_distance is Some && tour.statistic.distance
                    > limits.max_distance->0 {
                    Some(
                        limit_message(
                            "max distance limit"@,
                            dec_int(limits.max_distance->0 as int),
                            dec_int(tour.statistic.distance as int),
                            tour.vehicle_id@,
                            dec_str(tour.shift_index as int),
                        ),
                    )
                } else if limits.shift_time is Some && tour.statistic.duration
                    > limits.shift_time->0 {
                    Some(
                        limit_message(
                            "shift time limit"@,
                            dec_int(limits.shift_time->0 as int),
                            dec_int(tour.statistic.duration as int),
                            tour.vehicle_id@,
                            dec_str(tour.shift_index as int),
                        ),
                    )
                } else if limits.tour_size is Some && job_stop_count(tour.stops@)
                    > limits.tour_size->0 {
                    Some(
                        limit_message(
                            "tour size limit"@,
                            dec_str(limits.tour_size->0 as int),
                            dec_str(job_stop_count(tour.stops@)),
                            tour.vehicle_id@,
                            dec_str(tour.shift_index as int),
                        ),
                    )
                } else {
                    None
                }
            },
        }
    }
}

/// The first violation among the tours from index `i` on, if any.
pub open spec fn first_limit_error(vehicles: Seq<VehicleType>, tours: Seq<Tour>, i: int) -> Option<
    Seq<char>,
>
    decreases tours.len() - i,
{
    if i < 0 || i >= tours.len() {
        None
    } else {
        match tour_limit_error(vehicles, tours[i]) {
            Some(m) => Some(m),
            None => first_limit_error(vehicles, tours, i + 1),
        }
    }
}

/// Checks every tour of the solution against the limits of its vehicle
/// type, reporting the first violation verbatim.
pub fn check_limits(ctx: &CheckerContext) -> (r: Result<(), String>)
    ensures
        match r {
            Ok(()) => first_limit_error(
                ctx.problem.fleet.vehicles@,
                ctx.solution.tours@,
                0,
            ) is None,
            Err(m) => Some(m@) == first_limit_error(
                ctx.problem.fleet.vehicles@,
                ctx.solution.tours@,
                0,
            ),
        },
{
    let vehicles = &ctx.problem.fleet.vehicles;
    let tours = &ctx.solution.tours;
    let mut i: usize = 0;
    while i < tours.len()
        invariant
            0 <= i <= tours@.len(),
            vehicles == &ctx.problem.fleet.vehicles,
            tours == &ctx.solution.tours,
            first_limit_error(vehicles@, tours@, 0) == first_limit_error(
                vehicles@,
                tours@,
                i as int,
            ),
        decreases tours@.len() - i,
    {
        let tour = &tours[i];
        if let Some(message) = check_tour_limits(vehicles, tour) {
            return Err(message);
        }
        i += 1;
    }
    Ok(())
}

/// Checks one tour, returning the message of its first violated limit.
fn check_tour_limits(vehicles: &Vec<VehicleType>, tour: &Tour) -> (r: Option<String>)
    ensures
        match r {
            Some(m) => Some(m@) == tour_limit_error(vehicles@, *tour),
            None => tour_limit_error(vehicles@, *tour) is None,
        },
{
    let idx = match find_vehicle_type(vehicles, &tour.vehicle_id) {
        Some(idx) => idx,
        None => {
            return None;
        },
    };
    let limits = match &vehicles[idx].limits {
        Some(limits) => limits,
        None => {
            return None;
        },
    };
    if let Some(max_distance) = limits.max_distance {
        if tour.statistic.distance > max_distance {
            let expected = i64_to_string(max_distance);
            let got = i64_to_string(tour.statistic.distance);
            let shift = usize_to_string(tour.shift_index);
            return Some(
                build_limit_message("max distance limit", &expected, &got, &tour.vehicle_id, &shift),
            );
        }
    }
    if let Some(shift_time) = limits.shift_time {
        if tour.statistic.duration > shift_time {
            let expected = i64_to_string(shift_time);
            let got = i64_to_string(tour.statistic.duration);
            let shift = usize_to_string(tour.shift_index);
            return Some(
                build_limit_message("shift time limit", &expected, &got, &tour.vehicle_id, &shift),
            );
        }
    }
    if let Some(tour_size) = limits.tour_size {
        let count = count_job_stops(&tour.stops);
        if count > tour_size {
            proof {
                lemma_job_stop_count_bounds(tour.stops@);
            }
            let expected = usize_to_string(tour_size);
            let got = usize_to_string(count);
            let shift = usize_to_string(tour.shift_index);
            return Some(
                build_limit_message("tour size limit", &expected, &got, &tour.vehicle_id, &shift),
            );
        }
    }
    None
}

/// A job stop count is never negative and never exceeds the stop count.
proof fn lemma_job_stop_count_bounds(stops: Seq<Stop>)
    ensures
        0 <= job_stop_count(stops) <= stops.len(),
    decreases stops.len(),
{
    if stops.len() > 0 {
        lemma_job_stop_count_bounds(stops.drop_last());
    }
}

/// Finds the first vehicle type owning the vehicle `id`.
fn find_vehicle_type(vehicles: &Vec<VehicleType>, id: &String) -> (r: Option<usize>)
    ensures
        match r {
            Some(idx) => idx == vehicle_type_index(vehicles@, id@, 0) && idx < vehicles@.len(),
            None => vehicle_type_index(vehicles@, id@, 0) == -1,
        },
{
    let mut i: usize = 0;
    while i < vehicles.len()
        invariant
            0 <= i <= vehicles@.len(),
            vehicle_type_index(vehicles@, id@, 0) == vehicle_type_index(vehicles@, id@, i as int),
        decreases vehicles@.len() - i,
    {
        let ids = &vehicles[i].vehicle_ids;
        let mut j: usize = 0;
        while j < ids.len()
            invariant
                0 <= j <= ids@.len(),
                ids == &vehicles@[i as int].vehicle_ids,
                i < vehicles@.len(),
                vehicle_type_index(vehicles@, id@, 0) == vehicle_type_index(
                    vehicles@,
                    id@,
                    i as int,
                ),
                forall|k: int| 0 <= k < j ==> (#[trigger] ids@[k])@ != id@,
            decreases ids@.len() - j,
        {
            if ids[j].eq(id) {
                proof {
                    assert((vehicles@[i as int].vehicle_ids@[j as int])@ == id@);
                    assert(exists|k: int|
                        0 <= k < vehicles@[i as int].vehicle_ids@.len() && (
                        #[trigger] vehicles@[i as int].vehicle_ids@[k])@ == id@);
                    assert(vehicle_type_index(vehicles@, id@, i as int) == i as int);
                }
                return Some(i);
            }
            j += 1;
        }
        proof {
            assert(!exists|k: int|
                0 <= k < vehicles@[i as int].vehicle_ids@.len() && (
                #[trigger] vehicles@[i as int].vehicle_ids@[k])@ == id@);
        }
        i += 1;
    }
    None
}

/// Counts the stops of a tour that serve a job.
fn count_job_stops(stops: &Vec<Stop>) -> (r: usize)
    ensures
        r == job_stop_count(stops@),
{
    let mut count: usize = 0;
    let mut i: usize = 0;
    proof {
        assert(stops@.take(0int) =~= Seq::<Stop>::empty());
    }
    while i < stops.len()
        invariant
            0 <= i <= stops@.len(),
            count == job_stop_count(stops@.take(i as int)),
            count <= i,
        decreases stops@.len() - i,
    {
        proof {
            lemma_job_stop_count_bounds(stops@.take(i as int));
            assert(stops@.take(i + 1).drop_last() =~= stops@.take(i as int));
            assert(stops@.take(i + 1).last() == stops@[i as int]);
        }
        if !stop_is_terminal(&stops[i]) {
            count += 1;
        }
        i += 1;
    }
    proof {
        assert(stops@.take(stops@.len() as int) =~= stops@);
    }
    count
}

/// Whether every activity of the stop is a departure or arrival terminal.
fn stop_is_terminal(stop: &Stop) -> (r: bool)
    ensures
        r == is_terminal_stop(*stop),
{
    let mut i: usize = 0;
    while i < stop.activities.len()
        invariant
            0 <= i <= stop.activities@.len(),
            forall|k: int|
                0 <= k < i ==> (#[trigger] stop.activities@[k]).activity_type
                    == ActivityType::Departure || stop.activities@[k].activity_type
                    == ActivityType::Arrival,
        decreases stop.activities@.len() - i,
    {
        let t = stop.activities[i].activity_type;
        if !(t == ActivityType::Departure || t == ActivityType::Arrival) {
            return false;
        }
        i += 1;
    }
    true
}

/// Builds the violation message of one exceeded limit.
fn build_limit_message(
    kind: &str,
    expected: &String,
    got: &String,
    vehicle_id: &String,
    shift_index: &String,
) -> (r: String)
    ensures
        r@ == limit_message(kind@, expected@, got@, vehicle_id@, shift_index@),
{
    let mut r = String::new();
    r.push_str(kind);
    r.push_str(" violation, expected: not more than ");
    r.push_str(expected.as_str());
    r.push_str(", got: ");
    r.push_str(got.as_str());
    r.push_str(", vehicle id '");
    r.push_str(vehicle_id.as_str());
    r.push_str("', shift index: ");
    r.push_str(shift_index.as_str());
    proof {
        assert(r@ =~= limit_message(kind@, expected@, got@, vehicle_id@, shift_index@));
    }
    r
}

} // verus!
