//! Problem and solution data model: places, activities, jobs, actors,
//! tours and routes.

use vstd::prelude::*;

use crate::common::{
    Cost, Duration, Location, Schedule, TimeWindow, Timestamp, MAX_DURATION, MAX_TIME,
};
use crate::MAX_ACTIVITIES;

verus! {

/// Where an activity happens, how long it occupies the actor, and when it is
/// legal to perform it.
#[derive(Clone, Copy, PartialEq, Eq, Structural, Debug)]
pub struct Place {
    pub location: Location,
    pub duration: Duration,
    pub time: TimeWindow,
}

impl Place {
    /// The service duration and the time window lie within the supported
    /// ranges.
    pub open spec fn wf(self) -> bool {
        &&& 0 <= self.duration <= MAX_DURATION
        &&& self.time.wf()
    }
}

/// One stop of a tour. `job` is `None` for a vehicle terminal (start or end);
/// otherwise it carries the identifier of the job served here. `schedule` is
/// derived state, written by the scheduler rather than taken from input.
#[derive(Clone, Copy, PartialEq, Eq, Structural, Debug)]
pub struct Activity {
    pub place: Place,
    pub schedule: Schedule,
    pub job: Option<u64>,
}

impl Activity {
    /// Place and schedule are within the supported ranges.
    pub open spec fn wf(self) -> bool {
        &&& self.place.wf()
        &&& self.schedule.wf()
    }

    /// Builds an activity for `job` at `place` with a zeroed schedule.
    pub fn new_for_job(place: Place, job: u64) -> (r: Activity)
        ensures
            r.place == place,
            r.job == Some(job),
            r.schedule == (Schedule { arrival: 0, departure: 0 }),
    {
        Activity { place, schedule: Schedule { arrival: 0, departure: 0 }, job: Some(job) }
    }
}

/// A unit of customer work requiring one visit at one place.
#[derive(Clone, Copy, PartialEq, Eq, Structural, Debug)]
pub struct Job {
    pub id: u64,
    pub place: Place,
}

impl Job {
    /// The job's place is well formed.
    pub open spec fn wf(self) -> bool {
        self.place.wf()
    }
}

/// Shift and depot description of an actor: where it starts, where it may
/// have to end, and the `[earliest_start, latest_end]` shift window.
#[derive(Clone, Copy, PartialEq, Eq, Structural, Debug)]
pub struct ActorDetail {
    pub start: Option<Location>,
    pub end: Option<Location>,
    pub time: TimeWindow,
}

/// A vehicle-and-driver pairing. `profile` selects the transport matrix;
/// `cost_per_waiting_time` prices one unit of waiting.
#[derive(Clone, Copy, PartialEq, Eq, Structural, Debug)]
pub struct Actor {
    pub profile: usize,
    pub detail: ActorDetail,
    pub cost_per_waiting_time: Cost,
}

impl Actor {
    /// The shift window is well formed, a start location is present, and the
    /// waiting cost coefficient is small enough for exact cost arithmetic.
    pub open spec fn wf(self) -> bool {
        &&& self.detail.time.wf()
        &&& self.detail.start is Some
        &&& 0 <= self.cost_per_waiting_time <= 0x100
    }

    /// The location a route is bound to end at: the end depot when one is
    /// given, otherwise the start depot.
    pub open spec fn spec_end_location(self) -> Location
        recommends
            self.wf(),
    {
        match self.detail.end {
            Some(loc) => loc,
            None => self.detail.start->0,
        }
    }

    /// Returns the location the route is bound to end at.
    pub fn end_location(&self) -> (r: Location)
        requires
            self.wf(),
        ensures
            r == self.spec_end_location(),
    {
        match self.detail.end {
            Some(loc) => loc,
            None => match self.detail.start {
                Some(loc) => loc,
                None => 0,
            },
        }
    }
}

/// Ordered sequence of activities beginning with a start terminal and, for a
/// closed tour, ending with an end terminal.
#[derive(Clone, PartialEq, Eq, Debug)]
pub struct Tour {
    pub activities: Vec<Activity>,
}

impl Tour {
    /// The tour begins with a start terminal, fits the supported length, and
    /// every activity is well formed.
    pub open spec fn wf(self) -> bool {
        &&& 1 <= self.activities@.len() <= MAX_ACTIVITIES
        &&& self.activities@[0].job is None
        &&& forall|i: int| 0 <= i < self.activities@.len() ==> #[trigger] self.activities@[i].wf()
    }

    /// How many job (non-terminal) activities the tour holds.
    pub open spec fn spec_job_count(self) -> int {
        count_jobs(self.activities@)
    }

    /// Counts the job (non-terminal) activities.
    pub fn job_count(&self) -> (r: usize)
        ensures
            r == self.spec_job_count(),
    {
        let mut count: usize = 0;
        let mut i: usize = 0;
        proof {
            lemma_count_jobs_take(self.activities@, 0);
        }
        while i < self.activities.len()
            invariant
                0 <= i <= self.activities@.len(),
                count == count_jobs(self.activities@.take(i as int)),
                count <= i,
            decreases self.activities@.len() - i,
        {
            proof {
                lemma_count_jobs_take(self.activities@, i + 1);
                assert(self.activities@.take(i + 1).drop_last() =~= self.activities@.take(
                    i as int,
                ));
            }
            if self.activities[i].job.is_some() {
                count += 1;
            }
            i += 1;
        }
        proof {
            assert(self.activities@.take(self.activities@.len() as int) =~= self.activities@);
        }
        count
    }

    /// Whether the tour serves at least one job.
    pub fn has_jobs(&self) -> (r: bool)
        ensures
            r == (self.spec_job_count() > 0),
    {
        proof {
            lemma_count_jobs_nonneg(self.activities@);
        }
        self.job_count() > 0
    }
}

/// How many activities of `s` carry a job.
pub open spec fn count_jobs(s: Seq<Activity>) -> int
    decreases s.len(),
{
    if s.len() == 0 {
        0
    } else {
        count_jobs(s.drop_last()) + if s.last().job is Some {
            1int
        } else {
            0int
        }
    }
}

/// The job count of a prefix one longer grows by one exactly on a job
/// activity.
pub proof fn lemma_count_jobs_take(s: Seq<Activity>, i: int)
    requires
        0 <= i <= s.len(),
    ensures
        i == 0 ==> count_jobs(s.take(i)) == 0,
        i > 0 ==> count_jobs(s.take(i)) == count_jobs(s.take(i).drop_last()) + if s[i - 1].job
            is Some {
            1int
        } else {
            0int
        },
{
    if i > 0 {
        assert(s.take(i).last() == s[i - 1]);
    }
}

/// A sequence without job activities counts zero jobs.
pub proof fn lemma_count_jobs_none(s: Seq<Activity>)
    requires
        forall|i: int| 0 <= i < s.len() ==> (#[trigger] s[i]).job is None,
    ensures
        count_jobs(s) == 0,
    decreases s.len(),
{
    if s.len() > 0 {
        assert forall|i: int| 0 <= i < s.drop_last().len() implies (
        #[trigger] s.drop_last()[i]).job is None by {
            assert(s.drop_last()[i] == s[i]);
        }
        lemma_count_jobs_none(s.drop_last());
    }
}

/// A job count is never negative and never exceeds the length.
pub proof fn lemma_count_jobs_nonneg(s: Seq<Activity>)
    ensures
        0 <= count_jobs(s) <= s.len(),
    decreases s.len(),
{
    if s.len() > 0 {
        lemma_count_jobs_nonneg(s.drop_last());
    }
}

/// One vehicle's assignment: the actor and its tour.
#[derive(Clone, PartialEq, Eq, Debug)]
pub struct Route {
    pub actor: Actor,
    pub tour: Tour,
}

impl Route {
    /// Actor and tour are well formed.
    pub open spec fn wf(self) -> bool {
        &&& self.actor.wf()
        &&& self.tour.wf()
    }
}

} // verus!
