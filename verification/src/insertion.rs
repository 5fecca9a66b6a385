//! The refinement-side view of a candidate: the immutable problem, a
//! solution context under construction, and the fitness that orders
//! candidates during the search.

use vstd::prelude::*;

use crate::common::MAX_TIME;
use crate::models::Job;
use crate::oracles::{ActivityCost, MatrixTransportCost, SimpleActivityCost, TransportCost};
use crate::route_state::RouteContext;
use crate::solution::SolutionContext;
use crate::timing::WAITING_KEY;

verus! {

/// The immutable description the search works on: the jobs and the cost
/// oracles. Shared read-only by every operator.
#[derive(Clone, PartialEq, Eq, Debug)]
pub struct Problem {
    pub jobs: Vec<Job>,
    pub transport: MatrixTransportCost,
    pub activity: SimpleActivityCost,
}

impl Problem {
    /// Oracles are valid and every job's place is well formed.
    pub open spec fn wf(self) -> bool {
        &&& TransportCost::wf(&self.transport)
        &&& ActivityCost::wf(&self.activity)
        &&& forall|i: int| 0 <= i < self.jobs@.len() ==> (#[trigger] self.jobs@[i]).wf()
    }

    /// Builds the problem from its parts.
    pub fn new(jobs: Vec<Job>, transport: MatrixTransportCost, activity: SimpleActivityCost) -> (r:
        Problem)
        ensures
            r.jobs == jobs,
            r.transport == transport,
            r.activity == activity,
    {
        Problem { jobs, transport, activity }
    }
}

/// Every cached waiting value of the route is nonnegative, as the timing
/// pass writes it.
pub open spec fn waiting_states_nonneg(rc: RouteContext) -> bool {
    forall|a: int|
        (#[trigger] rc.state.spec_get(WAITING_KEY as int, a)) is Some ==> rc.state.spec_get(
            WAITING_KEY as int,
            a,
        )->0 >= 0
}

/// After an acceptance pass on a route whose cached waiting values were
/// nonnegative, they still are: the pass writes backward-pass sums, which
/// are nonnegative, and leaves other entries alone.
pub proof fn lemma_accepted_waiting_nonneg<T: TransportCost, A: ActivityCost>(
    t: &T,
    ac: &A,
    o: RouteContext,
    n: RouteContext,
)
    requires
        t.wf(),
        ac.wf(),
        n.wf(),
        crate::timing::route_state_accepted(t, ac, o, n),
        waiting_states_nonneg(o),
    ensures
        waiting_states_nonneg(n),
{
    let s = n.route.tour.activities@;
    assert forall|a: int| (#[trigger] n.state.spec_get(WAITING_KEY as int, a)) is Some implies n
        .state.spec_get(WAITING_KEY as int, a)->0 >= 0 by {
        if 0 <= a < s.len() && s[a].job is Some {
            assert forall|j: int| 0 <= j < s.len() implies (#[trigger] s[j]).place.wf()
                && s[j].schedule.arrival >= 0 by {
                assert(n.route.tour.activities@[j].wf());
            }
            crate::timing::lemma_back_acc_bounds(t, ac, n.route.actor, s, a);
        } else {
            assert(n.state.spec_get(WAITING_KEY as int, a) == o.state.spec_get(
                WAITING_KEY as int,
                a,
            ));
        }
    }
}

/// A candidate solution in refinement: the problem plus a solution context.
#[derive(Clone, PartialEq, Eq, Debug)]
pub struct InsertionContext {
    pub problem: Problem,
    pub solution: SolutionContext,
}

impl InsertionContext {
    /// The problem is well formed, every route is well formed with its
    /// start departing within the time range, and cached waiting values are
    /// nonnegative.
    pub open spec fn wf(self) -> bool {
        &&& self.problem.wf()
        &&& self.solution.routes_wf()
        &&& forall|i: int|
            0 <= i < self.solution.routes@.len() ==> (
            #[trigger] self.solution.routes@[i]).route.tour.activities@[0].schedule.departure
                <= MAX_TIME
        &&& forall|i: int|
            0 <= i < self.solution.routes@.len() ==> waiting_states_nonneg(
                #[trigger] self.solution.routes@[i],
            )
    }

    /// Pairs a problem with a solution context.
    pub fn new(problem: Problem, solution: SolutionContext) -> (r: InsertionContext)
        ensures
            r.problem == problem,
            r.solution == solution,
    {
        InsertionContext { problem, solution }
    }

    /// How bad the candidate is: the number of jobs not served by any
    /// route. Smaller is better.
    pub open spec fn spec_fitness(self) -> int {
        self.solution.required@.len() + self.solution.unassigned@.len() as int
    }

    /// Computes the candidate's fitness.
    pub fn fitness(&self) -> (r: u128)
        ensures
            r == self.spec_fitness(),
    {
        self.solution.required.len() as u128 + self.solution.unassigned.len() as u128
    }
}

} // verus!
