//! Common scalar types of the engine: timestamps, durations, costs,
//! locations, time windows and schedules, together with the bounds that keep
//! every scheduling computation inside `i64`.

use vstd::prelude::*;

verus! {

/// A point in time, in abstract integer time units.
pub type Timestamp = i64;

/// A length of time, in the same units as `Timestamp`.
pub type Duration = i64;

/// A cost amount, in abstract integer cost units.
pub type Cost = i64;

/// An index into a precomputed distance/duration matrix.
pub type Location = usize;

/// Upper bound on every time window boundary and on an actor's shift times.
pub const MAX_TIME: i64 = 0x100_0000_0000;

/// Upper bound on a single transport or service duration.
pub const MAX_DURATION: i64 = 0x4000_0000;

/// Upper bound on a single transport or service cost.
pub const MAX_COST: i64 = 0x100_0000_0000;

/// Upper bound on a stored schedule value (arrival or departure); large
/// enough for the longest tour of `MAX_ACTIVITIES` activities.
pub const MAX_SCHEDULE: i64 = 0x10_0000_0000_0000;

/// Upper bound on a time handed to a route-leg cost analysis.
pub const MAX_LEG_TIME: i64 = 0x40_0000_0000_0000;

/// Bound on every value kept in a route state cache.
pub const MAX_STATE_VALUE: i64 = 0x1000_0000_0000_0000;

/// A closed interval `[start, end]` of timestamps.
#[derive(Clone, Copy, PartialEq, Eq, Structural, Debug)]
pub struct TimeWindow {
    pub start: Timestamp,
    pub end: Timestamp,
}

impl TimeWindow {
    /// The window is ordered and lies within the supported time range.
    pub open spec fn wf(self) -> bool {
        0 <= self.start <= self.end <= MAX_TIME
    }

    /// Builds the window `[start, end]`.
    pub fn new(start: Timestamp, end: Timestamp) -> (r: TimeWindow)
        ensures
            r.start == start,
            r.end == end,
    {
        TimeWindow { start, end }
    }
}

/// Derived state of one activity: when the vehicle arrives and when it
/// leaves, waiting and service included.
#[derive(Clone, Copy, PartialEq, Eq, Structural, Debug)]
pub struct Schedule {
    pub arrival: Timestamp,
    pub departure: Timestamp,
}

impl Schedule {
    /// Arrival precedes departure and both lie in the supported range.
    pub open spec fn wf(self) -> bool {
        0 <= self.arrival <= self.departure <= MAX_SCHEDULE
    }

    /// Builds the schedule `(arrival, departure)`.
    pub fn new(arrival: Timestamp, departure: Timestamp) -> (r: Schedule)
        ensures
            r.arrival == arrival,
            r.departure == departure,
    {
        Schedule { arrival, departure }
    }
}

} // verus!
