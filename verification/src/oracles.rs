//! Cost oracles: transport durations/costs between locations and activity
//! service durations/costs. Both are consulted on every insertion evaluation,
//! so implementations precompute matrices; the engine only relies on the
//! contracts below.

use vstd::prelude::*;

use crate::common::{Cost, Duration, Location, Timestamp, MAX_COST, MAX_DURATION};
use crate::models::Place;

verus! {

/// Oracle for travel between two locations. `duration` may depend on the
/// departure time (time-dependent routing) but must be deterministic per
/// argument tuple.
pub trait TransportCost: Sized {
    /// Mathematical value of the travel duration.
    spec fn spec_duration(&self, profile: int, from: int, to: int, departure: int) -> int;

    /// Mathematical value of the travel cost.
    spec fn spec_cost(&self, profile: int, from: int, to: int, departure: int) -> int;

    /// The oracle's own validity condition.
    spec fn wf(&self) -> bool;

    /// Every duration the oracle can return lies in `[0, MAX_DURATION]`.
    proof fn duration_in_range(&self, profile: int, from: int, to: int, departure: int)
        requires
            self.wf(),
        ensures
            0 <= self.spec_duration(profile, from, to, departure) <= MAX_DURATION,
    ;

    /// Every cost the oracle can return lies in `[0, MAX_COST]`.
    proof fn cost_in_range(&self, profile: int, from: int, to: int, departure: int)
        requires
            self.wf(),
        ensures
            0 <= self.spec_cost(profile, from, to, departure) <= MAX_COST,
    ;

    /// Returns the travel duration from `from` to `to` when leaving at
    /// `departure`.
    fn duration(&self, profile: usize, from: Location, to: Location, departure: Timestamp) -> (r:
        Duration)
        requires
            self.wf(),
        ensures
            r == self.spec_duration(profile as int, from as int, to as int, departure as int),
            0 <= r <= MAX_DURATION,
    ;

    /// Returns the travel cost from `from` to `to` when leaving at
    /// `departure`.
    fn cost(&self, profile: usize, from: Location, to: Location, departure: Timestamp) -> (r: Cost)
        requires
            self.wf(),
        ensures
            r == self.spec_cost(profile as int, from as int, to as int, departure as int),
            0 <= r <= MAX_COST,
    ;
}

/// Oracle for performing an activity: how long the service takes and what it
/// costs. Both depend only on the activity's place and the given time, never
/// on the (mutable) schedule.
pub trait ActivityCost: Sized {
    /// Mathematical value of the service duration.
    spec fn spec_duration(&self, place: Place, at: int) -> int;

    /// Mathematical value of the service cost.
    spec fn spec_cost(&self, place: Place, at: int) -> int;

    /// The oracle's own validity condition.
    spec fn wf(&self) -> bool;

    /// Every duration the oracle can return lies in `[0, MAX_DURATION]`.
    proof fn duration_in_range(&self, place: Place, at: int)
        requires
            self.wf(),
            place.wf(),
        ensures
            0 <= self.spec_duration(place, at) <= MAX_DURATION,
    ;

    /// Every cost the oracle can return lies in `[0, MAX_COST]`.
    proof fn cost_in_range(&self, place: Place, at: int)
        requires
            self.wf(),
            place.wf(),
        ensures
            0 <= self.spec_cost(place, at) <= MAX_COST,
    ;

    /// Returns the service duration of an activity at `place` reached at
    /// `at`.
    fn duration(&self, place: &Place, at: Timestamp) -> (r: Duration)
        requires
            self.wf(),
            place.wf(),
        ensures
            r == self.spec_duration(*place, at as int),
            0 <= r <= MAX_DURATION,
    ;

    /// Returns the service cost of an activity at `place` reached at `at`.
    fn cost(&self, place: &Place, at: Timestamp) -> (r: Cost)
        requires
            self.wf(),
            place.wf(),
        ensures
            r == self.spec_cost(*place, at as int),
            0 <= r <= MAX_COST,
    ;
}

/// Transport oracle backed by square duration and cost matrices, one pair for
/// all profiles, with time-independent entries. Locations outside the matrix
/// take zero duration and cost.
#[derive(Clone, PartialEq, Eq, Debug)]
pub struct MatrixTransportCost {
    pub durations: Vec<Vec<Duration>>,
    pub costs: Vec<Vec<Cost>>,
}

impl MatrixTransportCost {
    /// Builds the oracle from its two matrices.
    pub fn new(durations: Vec<Vec<Duration>>, costs: Vec<Vec<Cost>>) -> (r: MatrixTransportCost)
        ensures
            r.durations == durations,
            r.costs == costs,
    {
        MatrixTransportCost { durations, costs }
    }
}

impl TransportCost for MatrixTransportCost {
    open spec fn spec_duration(&self, profile: int, from: int, to: int, departure: int) -> int {
        if 0 <= from < self.durations@.len() && 0 <= to < self.durations@[from]@.len() {
            self.durations@[from]@[to] as int
        } else {
            0
        }
    }

    open spec fn spec_cost(&self, profile: int, from: int, to: int, departure: int) -> int {
        if 0 <= from < self.costs@.len() && 0 <= to < self.costs@[from]@.len() {
            self.costs@[from]@[to] as int
        } else {
            0
        }
    }

    open spec fn wf(&self) -> bool {
        &&& forall|i: int, j: int|
            0 <= i < self.durations@.len() && 0 <= j < self.durations@[i]@.len() ==> 0 <= (
            #[trigger] self.durations@[i]@[j]) <= MAX_DURATION
        &&& forall|i: int, j: int|
            0 <= i < self.costs@.len() && 0 <= j < self.costs@[i]@.len() ==> 0 <= (
            #[trigger] self.costs@[i]@[j]) <= MAX_COST
    }

    proof fn duration_in_range(&self, profile: int, from: int, to: int, departure: int) {
    }

    proof fn cost_in_range(&self, profile: int, from: int, to: int, departure: int) {
    }

    fn duration(&self, profile: usize, from: Location, to: Location, departure: Timestamp) -> (r:
        Duration) {
        if from < self.durations.len() {
            let row = &self.durations[from];
            if to < row.len() {
                row[to]
            } else {
                0
            }
        } else {
            0
        }
    }

    fn cost(&self, profile: usize, from: Location, to: Location, departure: Timestamp) -> (r:
        Cost) {
        if from < self.costs.len() {
            let row = &self.costs[from];
            if to < row.len() {
                row[to]
            } else {
                0
            }
        } else {
            0
        }
    }
}

/// Activity oracle that serves each activity for exactly its place's
/// duration, at zero cost.
#[derive(Clone, Copy, PartialEq, Eq, Structural, Debug)]
pub struct SimpleActivityCost {
    pub enabled: bool,
}

impl SimpleActivityCost {
    /// Builds the oracle.
    pub fn new() -> (r: SimpleActivityCost)
        ensures
            r.enabled,
    {
        SimpleActivityCost { enabled: true }
    }
}

impl ActivityCost for SimpleActivityCost {
    open spec fn spec_duration(&self, place: Place, at: int) -> int {
        place.duration as int
    }

    open spec fn spec_cost(&self, place: Place, at: int) -> int {
        0
    }

    open spec fn wf(&self) -> bool {
        true
    }

    proof fn duration_in_range(&self, place: Place, at: int) {
    }

    proof fn cost_in_range(&self, place: Place, at: int) {
    }

    fn duration(&self, place: &Place, at: Timestamp) -> (r: Duration) {
        place.duration
    }

    fn cost(&self, place: &Place, at: Timestamp) -> (r: Cost) {
        0
    }
}

} // verus!
