//! The timing constraint module: time windows and scheduling feasibility.
//!
//! `accept_route_state` recomputes, after any structural route change, the
//! forward-propagated schedule of every activity and the backward-propagated
//! latest-arrival and cumulative-waiting state, so that a candidate insertion
//! can be evaluated in amortized O(1) against the cached state.

use vstd::prelude::*;

use crate::common::{
    Cost, Schedule, Timestamp, MAX_DURATION, MAX_LEG_TIME, MAX_SCHEDULE, MAX_STATE_VALUE, MAX_TIME,
};
use crate::models::{Activity, Actor};
use crate::oracles::{ActivityCost, TransportCost};
use crate::route_state::RouteContext;
use crate::solution::{
    lemma_activity_jobs_same_structure, lemma_jobs_add_cancel, lemma_routes_jobs_update,
    route_at_mut, route_jobs, routes_jobs, SolutionContext,
};

verus! {

/// State key of the latest-arrival bound of an activity.
pub const LATEST_ARRIVAL_KEY: i32 = 1;

/// State key of the cumulative waiting time from an activity to route end.
pub const WAITING_KEY: i32 = 2;

/// The larger of two mathematical integers.
pub open spec fn spec_max(a: int, b: int) -> int {
    if a >= b {
        a
    } else {
        b
    }
}

/// The smaller of two mathematical integers.
pub open spec fn spec_min(a: int, b: int) -> int {
    if a <= b {
        a
    } else {
        b
    }
}

/// The forward-pass recurrence between two consecutive activities: the
/// vehicle arrives after travelling from `prev`, then departs after waiting
/// out the window start and serving the activity.
pub open spec fn schedule_link<T: TransportCost, A: ActivityCost>(
    t: &T,
    ac: &A,
    actor: Actor,
    prev: Activity,
    cur: Activity,
) -> bool {
    &&& cur.schedule.arrival == prev.schedule.departure + t.spec_duration(
        actor.profile as int,
        prev.place.location as int,
        cur.place.location as int,
        prev.schedule.departure as int,
    )
    &&& cur.schedule.departure == spec_max(
        cur.schedule.arrival as int,
        cur.place.time.start as int,
    ) + ac.spec_duration(cur.place, cur.schedule.arrival as int)
}

/// Every consecutive pair of activities of `s` satisfies the forward-pass
/// recurrence.
pub open spec fn schedule_updated<T: TransportCost, A: ActivityCost>(
    t: &T,
    ac: &A,
    actor: Actor,
    s: Seq<Activity>,
) -> bool {
    forall|i: int| 1 <= i < s.len() ==> schedule_link(t, ac, actor, s[i - 1], #[trigger] s[i])
}

/// Accumulator of the backward pass after processing every activity with
/// index at least `i`: the latest time the tour may leave for the previously
/// processed stop, that stop's location, and the waiting accumulated so far.
/// Terminal (non-job) activities are passed through.
pub open spec fn back_acc<T: TransportCost, A: ActivityCost>(
    t: &T,
    ac: &A,
    actor: Actor,
    s: Seq<Activity>,
    i: int,
) -> (int, int, int)
    decreases s.len() - i,
{
    if i < 0 || i >= s.len() {
        (actor.detail.time.end as int, actor.spec_end_location() as int, 0)
    } else if s[i].job is None {
        back_acc(t, ac, actor, s, i + 1)
    } else {
        let acc = back_acc(t, ac, actor, s, i + 1);
        let potential = acc.0 - t.spec_duration(
            actor.profile as int,
            s[i].place.location as int,
            acc.1,
            acc.0,
        ) - ac.spec_duration(s[i].place, acc.0);
        let latest = spec_min(s[i].place.time.end as int, potential);
        let future_waiting = acc.2 + spec_max(
            s[i].place.time.start - s[i].schedule.arrival,
            0,
        );
        (latest, s[i].place.location as int, future_waiting)
    }
}

/// The structural content of the route — actor, places, jobs, length and the
/// start terminal's arrival — is the same in `n` as in `o`.
pub open spec fn structure_preserved(o: RouteContext, n: RouteContext) -> bool {
    let so = o.route.tour.activities@;
    let sn = n.route.tour.activities@;
    &&& n.route.actor == o.route.actor
    &&& sn.len() == so.len()
    &&& forall|i: int|
        0 <= i < sn.len() ==> (#[trigger] sn[i]).place == so[i].place && sn[i].job == so[i].job
    &&& sn[0].schedule.arrival == so[0].schedule.arrival
}

/// The state cache of `n` holds exactly the backward-pass values for every
/// job activity, and is untouched everywhere else.
pub open spec fn timing_state_updated<T: TransportCost, A: ActivityCost>(
    t: &T,
    ac: &A,
    o: RouteContext,
    n: RouteContext,
) -> bool {
    let s = n.route.tour.activities@;
    &&& forall|i: int|
        0 <= i < s.len() && (#[trigger] s[i]).job is Some ==> n.state.spec_get(
            LATEST_ARRIVAL_KEY as int,
            i,
        ) == Some(back_acc(t, ac, n.route.actor, s, i).0 as i64) && n.state.spec_get(
            WAITING_KEY as int,
            i,
        ) == Some(back_acc(t, ac, n.route.actor, s, i).2 as i64)
    &&& forall|i: int|
        0 <= i < s.len() && (#[trigger] s[i]).job is None ==> n.state.spec_get(
            LATEST_ARRIVAL_KEY as int,
            i,
        ) == o.state.spec_get(LATEST_ARRIVAL_KEY as int, i) && n.state.spec_get(
            WAITING_KEY as int,
            i,
        ) == o.state.spec_get(WAITING_KEY as int, i)
    &&& forall|k: int, a: int|
        !((k == LATEST_ARRIVAL_KEY as int || k == WAITING_KEY as int) && 0 <= a < s.len())
            ==> #[trigger] n.state.spec_get(k, a) == o.state.spec_get(k, a)
}

/// Everything `accept_route_state` promises: the structure is preserved, the
/// schedule obeys the forward recurrence and the state cache holds the
/// backward-pass values.
pub open spec fn route_state_accepted<T: TransportCost, A: ActivityCost>(
    t: &T,
    ac: &A,
    o: RouteContext,
    n: RouteContext,
) -> bool {
    &&& structure_preserved(o, n)
    &&& schedule_updated(t, ac, n.route.actor, n.route.tour.activities@)
    &&& timing_state_updated(t, ac, o, n)
}

/// A route is time-feasible when every job activity arrives no later than
/// its cached latest-arrival bound.
pub open spec fn time_feasible(ctx: RouteContext) -> bool {
    let s = ctx.route.tour.activities@;
    forall|i: int|
        0 <= i < s.len() && (#[trigger] s[i]).job is Some ==> s[i].schedule.arrival
            <= ctx.state.spec_get(LATEST_ARRIVAL_KEY as int, i)->0
}

/// Bounds of the backward accumulator: the latest-arrival component never
/// exceeds the supported time range and the waiting component is a bounded
/// nonnegative sum.
pub proof fn lemma_back_acc_bounds<T: TransportCost, A: ActivityCost>(
    t: &T,
    ac: &A,
    actor: Actor,
    s: Seq<Activity>,
    i: int,
)
    requires
        t.wf(),
        ac.wf(),
        actor.wf(),
        0 <= i <= s.len(),
        s.len() <= crate::MAX_ACTIVITIES,
        forall|j: int| 0 <= j < s.len() ==> (#[trigger] s[j]).place.wf(),
        forall|j: int| 0 <= j < s.len() ==> (#[trigger] s[j]).schedule.arrival >= 0,
    ensures
        back_acc(t, ac, actor, s, i).0 <= MAX_TIME,
        back_acc(t, ac, actor, s, i).0 >= -((s.len() - i) * 2 * MAX_DURATION),
        0 <= back_acc(t, ac, actor, s, i).2 <= (s.len() - i) * MAX_TIME,
    decreases s.len() - i,
{
    if i < s.len() {
        lemma_back_acc_bounds(t, ac, actor, s, i + 1);
        if s[i].job is Some {
            let acc = back_acc(t, ac, actor, s, i + 1);
            t.duration_in_range(actor.profile as int, s[i].place.location as int, acc.1, acc.0);
            ac.duration_in_range(s[i].place, acc.0);
        }
    }
}

/// In a time-feasible route whose state was just accepted, every job
/// activity arrives no later than its latest-arrival bound, which itself
/// lies within the activity's time window end.
pub proof fn lemma_feasible_arrivals_within_windows<T: TransportCost, A: ActivityCost>(
    t: &T,
    ac: &A,
    o: RouteContext,
    n: RouteContext,
)
    requires
        t.wf(),
        ac.wf(),
        n.wf(),
        route_state_accepted(t, ac, o, n),
        time_feasible(n),
    ensures
        forall|i: int|
            0 <= i < n.route.tour.activities@.len() && (
            #[trigger] n.route.tour.activities@[i]).job is Some
                ==> n.route.tour.activities@[i].schedule.arrival <= n.state.spec_get(
                LATEST_ARRIVAL_KEY as int,
                i,
            )->0 <= n.route.tour.activities@[i].place.time.end,
{
    let s = n.route.tour.activities@;
    let actor = n.route.actor;
    assert forall|i: int| 0 <= i < s.len() && (#[trigger] s[i]).job is Some implies s[i].schedule.arrival
        <= n.state.spec_get(LATEST_ARRIVAL_KEY as int, i)->0 <= s[i].place.time.end by {
        assert forall|j: int| 0 <= j < s.len() implies (#[trigger] s[j]).place.wf()
            && s[j].schedule.arrival >= 0 by {
            assert(n.route.tour.activities@[j].wf());
        }
        lemma_back_acc_bounds(t, ac, actor, s, i);
        lemma_back_acc_bounds(t, ac, actor, s, i + 1);
        let acc = back_acc(t, ac, actor, s, i + 1);
        t.duration_in_range(actor.profile as int, s[i].place.location as int, acc.1, acc.0);
        ac.duration_in_range(s[i].place, acc.0);
        assert(n.state.spec_get(LATEST_ARRIVAL_KEY as int, i) == Some(
            back_acc(t, ac, actor, s, i).0 as i64,
        ));
        assert(back_acc(t, ac, actor, s, i).0 <= s[i].place.time.end);
    }
}

/// The waiting accumulated from index `i` to the end of the tour: for every
/// job activity not reached before its window opens, the gap between window
/// start and arrival.
pub open spec fn suffix_waiting(s: Seq<Activity>, i: int) -> int
    decreases s.len() - i,
{
    if i < 0 || i >= s.len() {
        0
    } else {
        (if s[i].job is Some {
            spec_max(s[i].place.time.start - s[i].schedule.arrival, 0)
        } else {
            0
        }) + suffix_waiting(s, i + 1)
    }
}

/// The waiting component of the backward accumulator is exactly the suffix
/// sum of the per-activity waiting gaps.
pub proof fn lemma_back_waiting_is_suffix_sum<T: TransportCost, A: ActivityCost>(
    t: &T,
    ac: &A,
    actor: Actor,
    s: Seq<Activity>,
    i: int,
)
    requires
        0 <= i <= s.len(),
    ensures
        back_acc(t, ac, actor, s, i).2 == suffix_waiting(s, i),
    decreases s.len() - i,
{
    if i < s.len() {
        lemma_back_waiting_is_suffix_sum(t, ac, actor, s, i + 1);
    }
}

/// After the acceptance pass, the cached waiting of every job activity is
/// the sum, over all later activities, of the waiting incurred there.
pub proof fn lemma_waiting_state_is_suffix_sum<T: TransportCost, A: ActivityCost>(
    t: &T,
    ac: &A,
    o: RouteContext,
    n: RouteContext,
)
    requires
        t.wf(),
        ac.wf(),
        n.wf(),
        route_state_accepted(t, ac, o, n),
    ensures
        forall|i: int|
            0 <= i < n.route.tour.activities@.len() && (
            #[trigger] n.route.tour.activities@[i]).job is Some ==> n.state.spec_get(
                WAITING_KEY as int,
                i,
            )->0 == suffix_waiting(n.route.tour.activities@, i),
{
    let s = n.route.tour.activities@;
    let actor = n.route.actor;
    assert forall|i: int| 0 <= i < s.len() && (#[trigger] s[i]).job is Some implies n.state.spec_get(
        WAITING_KEY as int,
        i,
    )->0 == suffix_waiting(s, i) by {
        assert forall|j: int| 0 <= j < s.len() implies (#[trigger] s[j]).place.wf()
            && s[j].schedule.arrival >= 0 by {
            assert(n.route.tour.activities@[j].wf());
        }
        lemma_back_acc_bounds(t, ac, actor, s, i);
        lemma_back_waiting_is_suffix_sum(t, ac, actor, s, i);
        assert(n.state.spec_get(WAITING_KEY as int, i) == Some(
            back_acc(t, ac, actor, s, i).2 as i64,
        ));
    }
}

/// Two activity sequences with the same structure, the same start schedule
/// and both obeying the forward recurrence agree on every schedule of the
/// shorter one.
pub proof fn lemma_schedule_unique<T: TransportCost, A: ActivityCost>(
    t: &T,
    ac: &A,
    actor: Actor,
    s1: Seq<Activity>,
    s2: Seq<Activity>,
    i: int,
)
    requires
        s1.len() <= s2.len(),
        forall|j: int|
            0 <= j < s1.len() ==> (#[trigger] s2[j]).place == s1[j].place && s2[j].job == s1[j].job,
        s1.len() > 0 ==> s2[0].schedule == s1[0].schedule,
        schedule_updated(t, ac, actor, s1),
        schedule_updated(t, ac, actor, s2),
        0 <= i < s1.len(),
    ensures
        s2[i].schedule == s1[i].schedule,
    decreases i,
{
    if i > 0 {
        lemma_schedule_unique(t, ac, actor, s1, s2, i - 1);
        assert(schedule_link(t, ac, actor, s1[i - 1], s1[i]));
        assert(schedule_link(t, ac, actor, s2[i - 1], s2[i]));
    }
}

/// Idempotence of the acceptance pass: accepting a route a second time,
/// without structural change in between, reproduces the same schedules and
/// the same state.
pub proof fn lemma_accept_route_state_idempotent<T: TransportCost, A: ActivityCost>(
    t: &T,
    ac: &A,
    c0: RouteContext,
    c1: RouteContext,
    c2: RouteContext,
)
    requires
        c1.route.tour.activities@.len() > 0,
        route_state_accepted(t, ac, c0, c1),
        route_state_accepted(t, ac, c1, c2),
        c2.route.tour.activities@[0].schedule == c1.route.tour.activities@[0].schedule,
    ensures
        c2.route.tour.activities@ == c1.route.tour.activities@,
        forall|k: int, a: int| #[trigger] c2.state.spec_get(k, a) == c1.state.spec_get(k, a),
{
    let s1 = c1.route.tour.activities@;
    let s2 = c2.route.tour.activities@;
    let actor = c1.route.actor;
    assert forall|i: int| 0 <= i < s1.len() implies s2[i] == s1[i] by {
        lemma_schedule_unique(t, ac, actor, s1, s2, i);
    }
    assert(s2 =~= s1);
    assert forall|k: int, a: int| #[trigger] c2.state.spec_get(k, a) == c1.state.spec_get(k, a) by {
        if (k == LATEST_ARRIVAL_KEY as int || k == WAITING_KEY as int) && 0 <= a < s2.len() {
            if s2[a].job is Some {
                assert(c2.state.spec_get(LATEST_ARRIVAL_KEY as int, a) == Some(
                    back_acc(t, ac, actor, s2, a).0 as i64,
                ));
                assert(c1.state.spec_get(LATEST_ARRIVAL_KEY as int, a) == Some(
                    back_acc(t, ac, actor, s1, a).0 as i64,
                ));
            }
        }
    }
}

/// The transport oracle ignores the departure time and the activity oracle
/// ignores the arrival time.
pub open spec fn time_independent<T: TransportCost, A: ActivityCost>(t: &T, ac: &A) -> bool {
    &&& forall|p: int, f: int, to: int, d1: int, d2: int|
        #[trigger] t.spec_duration(p, f, to, d1) == #[trigger] t.spec_duration(p, f, to, d2)
    &&& forall|pl: crate::models::Place, t1: int, t2: int|
        #[trigger] ac.spec_duration(pl, t1) == #[trigger] ac.spec_duration(pl, t2)
}

/// The latest-arrival and location components of the backward accumulator
/// depend only on the places and jobs, never on the schedules.
pub proof fn lemma_back_acc_structural<T: TransportCost, A: ActivityCost>(
    t: &T,
    ac: &A,
    actor: Actor,
    s1: Seq<Activity>,
    s2: Seq<Activity>,
    i: int,
)
    requires
        s1.len() == s2.len(),
        forall|j: int|
            0 <= j < s1.len() ==> (#[trigger] s2[j]).place == s1[j].place && s2[j].job == s1[j].job,
    ensures
        back_acc(t, ac, actor, s2, i).0 == back_acc(t, ac, actor, s1, i).0,
        back_acc(t, ac, actor, s2, i).1 == back_acc(t, ac, actor, s1, i).1,
    decreases s1.len() - i,
{
    if 0 <= i < s1.len() {
        lemma_back_acc_structural(t, ac, actor, s1, s2, i + 1);
    }
}

/// The latest-arrival bound certifies the rest of the route: under
/// time-independent oracles, when a rescheduled route with unchanged places
/// and jobs reaches the job at `j` no later than its cached latest-arrival
/// bound, and every activity from `j` on is a job, then every job from `j`
/// on is reached no later than its own bound, and so within its time window.
pub proof fn lemma_latest_bound_propagates<T: TransportCost, A: ActivityCost>(
    t: &T,
    ac: &A,
    o: RouteContext,
    n: RouteContext,
    s2: Seq<Activity>,
    j: int,
)
    requires
        t.wf(),
        ac.wf(),
        n.wf(),
        time_independent(t, ac),
        route_state_accepted(t, ac, o, n),
        time_feasible(n),
        s2.len() == n.route.tour.activities@.len(),
        forall|i: int|
            0 <= i < s2.len() ==> (#[trigger] s2[i]).place == n.route.tour.activities@[i].place
                && s2[i].job == n.route.tour.activities@[i].job,
        schedule_updated(t, ac, n.route.actor, s2),
        0 <= j < s2.len(),
        forall|i: int| j <= i < s2.len() ==> (#[trigger] s2[i]).job is Some,
        s2[j].schedule.arrival <= back_acc(t, ac, n.route.actor, n.route.tour.activities@, j).0,
    ensures
        forall|i: int|
            j <= i < s2.len() ==> (#[trigger] s2[i]).schedule.arrival <= back_acc(
                t,
                ac,
                n.route.actor,
                n.route.tour.activities@,
                i,
            ).0 <= s2[i].place.time.end,
{
    let sn = n.route.tour.activities@;
    let actor = n.route.actor;
    assert forall|i: int| j <= i < s2.len() implies (#[trigger] s2[i]).schedule.arrival <= back_acc(
        t,
        ac,
        actor,
        sn,
        i,
    ).0 <= s2[i].place.time.end by {
        lemma_propagate_step(t, ac, o, n, s2, j, i);
        assert(n.route.tour.activities@[i].wf());
    }
}

/// One leg of the propagation induction: the bound holds at every index
/// between `j` and `i`.
proof fn lemma_propagate_step<T: TransportCost, A: ActivityCost>(
    t: &T,
    ac: &A,
    o: RouteContext,
    n: RouteContext,
    s2: Seq<Activity>,
    j: int,
    i: int,
)
    requires
        t.wf(),
        ac.wf(),
        n.wf(),
        time_independent(t, ac),
        route_state_accepted(t, ac, o, n),
        time_feasible(n),
        s2.len() == n.route.tour.activities@.len(),
        forall|k: int|
            0 <= k < s2.len() ==> (#[trigger] s2[k]).place == n.route.tour.activities@[k].place
                && s2[k].job == n.route.tour.activities@[k].job,
        schedule_updated(t, ac, n.route.actor, s2),
        0 <= j <= i < s2.len(),
        forall|k: int| j <= k < s2.len() ==> (#[trigger] s2[k]).job is Some,
        s2[j].schedule.arrival <= back_acc(t, ac, n.route.actor, n.route.tour.activities@, j).0,
    ensures
        s2[i].schedule.arrival <= back_acc(t, ac, n.route.actor, n.route.tour.activities@, i).0,
    decreases i - j,
{
    let sn = n.route.tour.activities@;
    let actor = n.route.actor;
    if i > j {
        lemma_propagate_step(t, ac, o, n, s2, j, i - 1);
        let prev = i - 1;
        let latest_prev = back_acc(t, ac, actor, sn, prev).0;
        let latest_here = back_acc(t, ac, actor, sn, i).0;
        // the backward step at `prev` reads the location of the job at `i`
        assert(back_acc(t, ac, actor, sn, i).1 == sn[i].place.location as int);
        let travel = t.spec_duration(
            actor.profile as int,
            sn[prev].place.location as int,
            sn[i].place.location as int,
            back_acc(t, ac, actor, sn, i).0,
        );
        let service = ac.spec_duration(sn[prev].place, back_acc(t, ac, actor, sn, i).0);
        assert(latest_prev <= latest_here - travel - service);
        assert(schedule_link(t, ac, actor, s2[prev], s2[i]));
        assert(schedule_link(t, ac, actor, sn[prev], sn[i]));
        // time independence lines the durations of both schedules up
        assert(t.spec_duration(
            actor.profile as int,
            s2[prev].place.location as int,
            s2[i].place.location as int,
            s2[prev].schedule.departure as int,
        ) == travel);
        assert(ac.spec_duration(s2[prev].place, s2[prev].schedule.arrival as int) == service);
        assert(t.spec_duration(
            actor.profile as int,
            sn[prev].place.location as int,
            sn[i].place.location as int,
            sn[prev].schedule.departure as int,
        ) == travel);
        assert(ac.spec_duration(sn[prev].place, sn[prev].schedule.arrival as int) == service);
        if s2[prev].schedule.arrival >= s2[prev].place.time.start {
            // no waiting: the bound at `prev` carries over directly
            assert(s2[i].schedule.arrival <= latest_prev + service + travel);
        } else {
            // waiting pins the departure to the window start, exactly as in
            // the accepted schedule, whose next arrival meets its bound
            assert(s2[i].schedule.arrival <= sn[i].schedule.arrival);
            assert forall|k: int| 0 <= k < sn.len() implies (#[trigger] sn[k]).place.wf()
                && sn[k].schedule.arrival >= 0 by {
                assert(n.route.tour.activities@[k].wf());
            }
            lemma_back_acc_bounds(t, ac, actor, sn, i);
            assert(n.state.spec_get(LATEST_ARRIVAL_KEY as int, i) == Some(latest_here as i64));
            assert(sn[i].schedule.arrival <= latest_here);
        }
    }
}

/// Insertion soundness at the end of an open tour: when the hard timing
/// constraint accepts appending `target` after the last activity, committing
/// the insertion and re-running the acceptance pass leaves every earlier
/// schedule unchanged, and the appended activity is reached within its time
/// window and served within the actor's shift.
pub proof fn lemma_open_insertion_sound<T: TransportCost, A: ActivityCost>(
    t: &T,
    ac: &A,
    n: RouteContext,
    e: RouteContext,
    target: Activity,
    code: i32,
)
    requires
        t.wf(),
        ac.wf(),
        n.route.actor.wf(),
        n.route.tour.activities@.len() > 0,
        schedule_updated(t, ac, n.route.actor, n.route.tour.activities@),
        // the candidate evaluation at the final position succeeded
        hard_activity_result(
            t,
            ac,
            n.route.actor,
            n.route.tour.activities@.last(),
            target,
            None,
            None,
            code,
        ) is None,
        // `e` is the accepted result of committing the insertion
        e.route.actor == n.route.actor,
        e.route.tour.activities@.len() == n.route.tour.activities@.len() + 1,
        forall|j: int|
            0 <= j < n.route.tour.activities@.len() ==> (
            #[trigger] e.route.tour.activities@[j]).place == n.route.tour.activities@[j].place
                && e.route.tour.activities@[j].job == n.route.tour.activities@[j].job,
        e.route.tour.activities@.last().place == target.place,
        e.route.tour.activities@[0].schedule == n.route.tour.activities@[0].schedule,
        schedule_updated(t, ac, e.route.actor, e.route.tour.activities@),
    ensures
        forall|j: int|
            0 <= j < n.route.tour.activities@.len() ==> (
            #[trigger] e.route.tour.activities@[j]).schedule
                == n.route.tour.activities@[j].schedule,
        e.route.tour.activities@.last().schedule.arrival <= target.place.time.end,
        e.route.tour.activities@.last().schedule.departure <= n.route.actor.detail.time.end,
{
    let s = n.route.tour.activities@;
    let se = e.route.tour.activities@;
    let actor = n.route.actor;
    let len = s.len() as int;
    assert forall|j: int| 0 <= j < len implies (#[trigger] se[j]).schedule == s[j].schedule by {
        lemma_schedule_unique(t, ac, actor, s, se, j);
    }
    let prev = s.last();
    assert(schedule_link(t, ac, actor, se[len - 1], se[len]));
    let departure = prev.schedule.departure as int;
    let arr = departure + t.spec_duration(
        actor.profile as int,
        prev.place.location as int,
        target.place.location as int,
        departure,
    );
    assert(se[len].schedule.arrival == arr);
    let end_target = spec_max(arr, target.place.time.start as int) + ac.spec_duration(
        target.place,
        arr,
    );
    assert(se[len].schedule.departure == end_target);
    t.duration_in_range(
        actor.profile as int,
        target.place.location as int,
        target.place.location as int,
        end_target,
    );
}

/// A candidate insertion of `target` between the route's activity at
/// `index` (`prev`) and its successor (`next`); `next` is absent when the
/// insertion extends an open tour at its end.
pub struct ActivityContext<'a> {
    pub index: usize,
    pub prev: &'a Activity,
    pub target: &'a Activity,
    pub next: Option<&'a Activity>,
}

impl<'a> ActivityContext<'a> {
    /// The successor activity as a value.
    pub open spec fn next_val(self) -> Option<Activity> {
        match self.next {
            Some(a) => Some(*a),
            None => None,
        }
    }

    /// The context points at the activities of `ctx`'s tour around position
    /// `index`, and the candidate's place is well formed.
    pub open spec fn consistent_with(self, ctx: RouteContext) -> bool {
        let s = ctx.route.tour.activities@;
        &&& self.index < s.len()
        &&& *self.prev == s[self.index as int]
        &&& match self.next {
            Some(n) => self.index + 1 < s.len() && *n == s[self.index + 1],
            None => self.index + 1 == s.len(),
        }
        &&& self.target.place.wf()
    }
}

/// The decision of the hard timing constraint for one candidate insertion,
/// written out as the mathematical case split: a `stopped` violation when no
/// later position can succeed either, a plain violation when only this
/// position fails, `None` on success.
pub open spec fn hard_activity_result<T: TransportCost, A: ActivityCost>(
    t: &T,
    ac: &A,
    actor: Actor,
    prev: Activity,
    target: Activity,
    next: Option<Activity>,
    latest_next_state: Option<i64>,
    code: i32,
) -> Option<ActivityConstraintViolation> {
    let fail = Some(ActivityConstraintViolation { code, stopped: true });
    let stop = Some(ActivityConstraintViolation { code, stopped: false });
    let departure = prev.schedule.departure as int;
    let profile = actor.profile as int;
    let shift_end = actor.detail.time.end as int;
    if shift_end < prev.place.time.start || shift_end < target.place.time.start || (next is Some
        && shift_end < next->0.place.time.start) {
        fail
    } else {
        let next_loc = if next is Some {
            next->0.place.location as int
        } else {
            target.place.location as int
        };
        let latest_arr_next = if next is Some {
            match latest_next_state {
                Some(v) => v as int,
                None => next->0.place.time.end as int,
            }
        } else {
            spec_min(target.place.time.end as int, shift_end)
        };
        let arr_at_next = departure + t.spec_duration(
            profile,
            prev.place.location as int,
            next_loc,
            departure,
        );
        if arr_at_next > latest_arr_next {
            fail
        } else if target.place.time.start > latest_arr_next {
            stop
        } else {
            let arr_target = departure + t.spec_duration(
                profile,
                prev.place.location as int,
                target.place.location as int,
                departure,
            );
            let end_target = spec_max(arr_target, target.place.time.start as int)
                + ac.spec_duration(target.place, arr_target);
            let latest_target = spec_min(
                target.place.time.end as int,
                latest_arr_next - t.spec_duration(
                    profile,
                    target.place.location as int,
                    next_loc,
                    latest_arr_next,
                ) + ac.spec_duration(target.place, arr_target),
            );
            if arr_target > latest_target {
                stop
            } else if next is Some {
                None
            } else {
                let arr_next_act = end_target + t.spec_duration(
                    profile,
                    target.place.location as int,
                    next_loc,
                    end_target,
                );
                if arr_next_act > latest_arr_next {
                    stop
                } else {
                    None
                }
            }
        }
    }
}

/// A violation returned by a hard activity constraint. `stopped` tells the
/// insertion evaluator whether later positions in the same route are also
/// hopeless.
#[derive(Clone, Copy, PartialEq, Eq, Structural, Debug)]
pub struct ActivityConstraintViolation {
    pub code: i32,
    pub stopped: bool,
}

/// The hard timing constraint: decides whether a candidate insertion keeps
/// the route schedulable, reading the cached latest-arrival state.
pub struct TimeHardActivityConstraint<'a, T, A> {
    pub code: i32,
    pub activity: &'a A,
    pub transport: &'a T,
}

impl<'a, T: TransportCost, A: ActivityCost> TimeHardActivityConstraint<'a, T, A> {
    /// A violation after which no later position in the route can succeed.
    pub fn fail(&self) -> (r: Option<ActivityConstraintViolation>)
        ensures
            r == Some(ActivityConstraintViolation { code: self.code, stopped: true }),
    {
        Some(ActivityConstraintViolation { code: self.code, stopped: true })
    }

    /// A violation of this position only; later positions may succeed.
    pub fn stop(&self) -> (r: Option<ActivityConstraintViolation>)
        ensures
            r == Some(ActivityConstraintViolation { code: self.code, stopped: false }),
    {
        Some(ActivityConstraintViolation { code: self.code, stopped: false })
    }

    /// No violation.
    pub fn success(&self) -> (r: Option<ActivityConstraintViolation>)
        ensures
            r is None,
    {
        None
    }

    /// Evaluates a candidate insertion against the cached latest-arrival
    /// state of the route.
    pub fn evaluate_activity(
        &self,
        route_ctx: &RouteContext,
        activity_ctx: &ActivityContext<'_>,
    ) -> (r: Option<ActivityConstraintViolation>)
        requires
            self.transport.wf(),
            self.activity.wf(),
            route_ctx.wf(),
            activity_ctx.consistent_with(*route_ctx),
        ensures
            r == hard_activity_result(
                self.transport,
                self.activity,
                route_ctx.route.actor,
                *activity_ctx.prev,
                *activity_ctx.target,
                activity_ctx.next_val(),
                route_ctx.state.spec_get(LATEST_ARRIVAL_KEY as int, activity_ctx.index + 1),
                self.code,
            ),
    {
        let actor = route_ctx.route.actor;
        let prev = activity_ctx.prev;
        let target = activity_ctx.target;
        let shift_end = actor.detail.time.end;
        let departure = prev.schedule.departure;
        let profile = actor.profile;
        proof {
            assert(route_ctx.route.tour.activities@[activity_ctx.index as int].wf());
            if activity_ctx.next is Some {
                assert(route_ctx.route.tour.activities@[activity_ctx.index + 1].wf());
            }
        }

        if shift_end < prev.place.time.start || shift_end < target.place.time.start {
            return self.fail();
        }
        if let Some(next) = activity_ctx.next {
            if shift_end < next.place.time.start {
                return self.fail();
            }
        }

        let (next_act_location, latest_arr_time_at_next_act) = match activity_ctx.next {
            Some(next) => (
                next.place.location,
                match route_ctx.state.get_activity_state(
                    LATEST_ARRIVAL_KEY,
                    activity_ctx.index + 1,
                ) {
                    Some(latest) => latest,
                    None => next.place.time.end,
                },
            ),
            None => (
                target.place.location,
                if target.place.time.end <= shift_end {
                    target.place.time.end
                } else {
                    shift_end
                },
            ),
        };

        let arr_time_at_next = departure + self.transport.duration(
            profile,
            prev.place.location,
            next_act_location,
            departure,
        );
        if arr_time_at_next > latest_arr_time_at_next_act {
            return self.fail();
        }
        if target.place.time.start > latest_arr_time_at_next_act {
            return self.stop();
        }

        let arr_time_at_target_act = departure + self.transport.duration(
            profile,
            prev.place.location,
            target.place.location,
            departure,
        );
        let target_service = self.activity.duration(&target.place, arr_time_at_target_act);
        let served_from = if arr_time_at_target_act >= target.place.time.start {
            arr_time_at_target_act
        } else {
            target.place.time.start
        };
        let end_time_at_new_act = served_from + target_service;

        let back_travel = self.transport.duration(
            profile,
            target.place.location,
            next_act_location,
            latest_arr_time_at_next_act,
        );
        let potential_latest = latest_arr_time_at_next_act - back_travel + target_service;
        let latest_arr_time_at_new_act = if target.place.time.end <= potential_latest {
            target.place.time.end
        } else {
            potential_latest
        };

        if arr_time_at_target_act > latest_arr_time_at_new_act {
            return self.stop();
        }

        if activity_ctx.next.is_some() {
            return self.success();
        }

        let arr_time_at_next_act = end_time_at_new_act + self.transport.duration(
            profile,
            target.place.location,
            next_act_location,
            end_time_at_new_act,
        );
        if arr_time_at_next_act > latest_arr_time_at_next_act {
            self.stop()
        } else {
            self.success()
        }
    }
}

/// One leg of a route under analysis: the transport cost of travelling from
/// `start` to `end` when leaving at `time`, the activity cost of serving
/// `end`, and the resulting departure from `end`.
pub open spec fn analyze_leg<T: TransportCost, A: ActivityCost>(
    t: &T,
    ac: &A,
    actor: Actor,
    start: Activity,
    end: Activity,
    time: int,
) -> (int, int, int) {
    let profile = actor.profile as int;
    let arrival = time + t.spec_duration(
        profile,
        start.place.location as int,
        end.place.location as int,
        time,
    );
    let departure = spec_max(arrival, end.place.time.start as int) + ac.spec_duration(
        end.place,
        arrival,
    );
    let transport_cost = t.spec_cost(
        profile,
        start.place.location as int,
        end.place.location as int,
        time,
    );
    let activity_cost = ac.spec_cost(end.place, arrival);
    (transport_cost, activity_cost, departure)
}

/// The change in cost implied by inserting `target` between `prev` and
/// `next`: the cost of the two new legs, less the cost of the replaced leg
/// and the downstream waiting it already paid for.
pub open spec fn estimate_activity_spec<T: TransportCost, A: ActivityCost>(
    t: &T,
    ac: &A,
    actor: Actor,
    has_jobs: bool,
    prev: Activity,
    target: Activity,
    next: Option<Activity>,
    waiting_state: Option<i64>,
) -> int {
    let departure = prev.schedule.departure as int;
    let left = analyze_leg(t, ac, actor, prev, target, departure);
    let right = match next {
        Some(n) => analyze_leg(t, ac, actor, target, n, left.2),
        None => analyze_leg(t, ac, actor, target, target, left.2),
    };
    let new_costs = left.0 + right.0 + left.1 + right.1;
    if !has_jobs || next is None {
        new_costs
    } else {
        let waiting_time = match waiting_state {
            Some(w) => w as int,
            None => 0,
        };
        let old = analyze_leg(t, ac, actor, prev, next->0, departure);
        let waiting_cost = spec_min(waiting_time, spec_max(right.2 - old.2, 0))
            * actor.cost_per_waiting_time;
        new_costs - (old.0 + old.1 + waiting_cost)
    }
}

/// The soft timing constraint: estimates the cost delta of a candidate
/// insertion, reading the cached downstream-waiting state.
pub struct TimeSoftActivityConstraint<'a, T, A> {
    pub activity: &'a A,
    pub transport: &'a T,
}

impl<'a, T: TransportCost, A: ActivityCost> TimeSoftActivityConstraint<'a, T, A> {
    /// Analyzes the leg from `start` to `end` entered at `time`, returning
    /// `(transport_cost, activity_cost, departure_from_end)`.
    pub fn analyze_route_leg(
        &self,
        actor: &Actor,
        start: &Activity,
        end: &Activity,
        time: Timestamp,
    ) -> (r: (Cost, Cost, Timestamp))
        requires
            self.transport.wf(),
            self.activity.wf(),
            end.place.wf(),
            0 <= time <= MAX_LEG_TIME,
        ensures
            (r.0 as int, r.1 as int, r.2 as int) == analyze_leg(
                self.transport,
                self.activity,
                *actor,
                *start,
                *end,
                time as int,
            ),
            0 <= r.0 <= crate::common::MAX_COST,
            0 <= r.1 <= crate::common::MAX_COST,
            0 <= r.2 <= time + MAX_TIME + 2 * MAX_DURATION,
    {
        let profile = actor.profile;
        let arrival = time + self.transport.duration(
            profile,
            start.place.location,
            end.place.location,
            time,
        );
        let served_from = if arrival >= end.place.time.start {
            arrival
        } else {
            end.place.time.start
        };
        let departure = served_from + self.activity.duration(&end.place, arrival);
        let transport_cost = self.transport.cost(
            profile,
            start.place.location,
            end.place.location,
            time,
        );
        let activity_cost = self.activity.cost(&end.place, arrival);
        (transport_cost, activity_cost, departure)
    }

    /// Estimates the cost delta of inserting the candidate between its
    /// neighbours.
    pub fn estimate_activity(
        &self,
        route_ctx: &RouteContext,
        activity_ctx: &ActivityContext<'_>,
    ) -> (r: Cost)
        requires
            self.transport.wf(),
            self.activity.wf(),
            route_ctx.wf(),
            activity_ctx.consistent_with(*route_ctx),
            match route_ctx.state.spec_get(WAITING_KEY as int, activity_ctx.index + 1) {
                Some(w) => w >= 0,
                None => true,
            },
        ensures
            r == estimate_activity_spec(
                self.transport,
                self.activity,
                route_ctx.route.actor,
                route_ctx.route.tour.spec_job_count() > 0,
                *activity_ctx.prev,
                *activity_ctx.target,
                activity_ctx.next_val(),
                route_ctx.state.spec_get(WAITING_KEY as int, activity_ctx.index + 1),
            ),
    {
        let actor = &route_ctx.route.actor;
        let prev = activity_ctx.prev;
        let target = activity_ctx.target;
        proof {
            assert(route_ctx.route.tour.activities@[activity_ctx.index as int].wf());
            if activity_ctx.next is Some {
                assert(route_ctx.route.tour.activities@[activity_ctx.index + 1].wf());
            }
        }

        let (tp_cost_left, act_cost_left, dep_time_left) = self.analyze_route_leg(
            actor,
            prev,
            target,
            prev.schedule.departure,
        );

        let (tp_cost_right, act_cost_right, dep_time_right) = match activity_ctx.next {
            Some(next) => self.analyze_route_leg(actor, target, next, dep_time_left),
            None => self.analyze_route_leg(actor, target, target, dep_time_left),
        };

        let new_costs = tp_cost_left + tp_cost_right + act_cost_left + act_cost_right;

        // no jobs yet, or an open tour extension
        if !route_ctx.route.tour.has_jobs() || activity_ctx.next.is_none() {
            return new_costs;
        }

        let next = match activity_ctx.next {
            Some(next) => next,
            None => prev,
        };
        let waiting_time = match route_ctx.state.get_activity_state(
            WAITING_KEY,
            activity_ctx.index + 1,
        ) {
            Some(w) => w,
            None => 0,
        };

        let (tp_cost_old, act_cost_old, dep_time_old) = self.analyze_route_leg(
            actor,
            prev,
            next,
            prev.schedule.departure,
        );

        let gained = if dep_time_right >= dep_time_old {
            dep_time_right - dep_time_old
        } else {
            0
        };
        let bounded_waiting = if waiting_time <= gained {
            waiting_time
        } else {
            gained
        };
        proof {
            assert(0 <= bounded_waiting * actor.cost_per_waiting_time <= 0x100 * (MAX_LEG_TIME
                + MAX_TIME + 2 * MAX_DURATION)) by (nonlinear_arith)
                requires
                    0 <= bounded_waiting <= MAX_LEG_TIME + MAX_TIME + 2 * MAX_DURATION,
                    0 <= actor.cost_per_waiting_time <= 0x100,
            ;
        }
        let waiting_cost = bounded_waiting * actor.cost_per_waiting_time;

        let old_costs = tp_cost_old + act_cost_old + waiting_cost;

        new_costs - old_costs
    }
}

/// Checks whether a vehicle can serve the activities of its tour within
/// their time windows; owns the transport and activity cost oracles.
pub struct TimingConstraintModule<T, A> {
    pub code: i32,
    pub state_keys: Vec<i32>,
    pub activity: A,
    pub transport: T,
}

impl<T: TransportCost, A: ActivityCost> TimingConstraintModule<T, A> {
    /// Both oracles are valid.
    pub open spec fn wf(self) -> bool {
        &&& self.transport.wf()
        &&& self.activity.wf()
    }

    /// Builds the module around the two oracles, registering the two state
    /// keys of the timing subsystem.
    pub fn new(activity: A, transport: T, code: i32) -> (r: TimingConstraintModule<T, A>)
        ensures
            r.code == code,
            r.activity == activity,
            r.transport == transport,
            r.state_keys@ == seq![LATEST_ARRIVAL_KEY, WAITING_KEY],
    {
        let state_keys = vec![LATEST_ARRIVAL_KEY, WAITING_KEY];
        TimingConstraintModule { code, state_keys, activity, transport }
    }

    /// The registered state keys of this module.
    pub fn state_keys(&self) -> (r: &Vec<i32>)
        ensures
            r@ == self.state_keys@,
    {
        &self.state_keys
    }

    /// Recomputes the per-route derived state after a structural change:
    /// first the forward schedule pass, then the backward latest-arrival and
    /// waiting pass over the job activities.
    pub fn accept_route_state(&self, ctx: &mut RouteContext)
        requires
            self.wf(),
            old(ctx).wf(),
            old(ctx).route.tour.activities@[0].schedule.departure <= MAX_TIME,
        ensures
            final(ctx).wf(),
            route_state_accepted(&self.transport, &self.activity, *old(ctx), *final(ctx)),
            final(ctx).route.tour.activities@[0].schedule == old(
                ctx,
            ).route.tour.activities@[0].schedule,
    {
        update_route_schedule_and_state(&self.transport, &self.activity, ctx);
    }

    /// Cross-route adjustment once no jobs remain required: reschedules each
    /// served route's departure, sliding the start forward by the waiting at
    /// the first activity. Solutions with required jobs are left alone, as
    /// are routes whose activity count is zero — a tour's activity count
    /// being its job activities, terminals excluded.
    pub fn accept_solution_state(&self, ctx: &mut SolutionContext)
        requires
            self.wf(),
            old(ctx).routes_wf(),
            forall|i: int|
                0 <= i < old(ctx).routes@.len() ==> (
                #[trigger] old(ctx).routes@[i]).route.tour.activities@[0].schedule.departure
                    <= MAX_TIME,
            forall|i: int|
                0 <= i < old(ctx).routes@.len() && (
                #[trigger] old(ctx).routes@[i]).route.tour.activities@.len() >= 2 ==> old(
                    ctx,
                ).routes@[i].route.tour.activities@[1].schedule.arrival >= old(
                    ctx,
                ).routes@[i].route.tour.activities@[0].schedule.departure,
        ensures
            final(ctx).routes_wf(),
            final(ctx).routes@.len() == old(ctx).routes@.len(),
            final(ctx).required == old(ctx).required,
            final(ctx).ignored == old(ctx).ignored,
            final(ctx).locked == old(ctx).locked,
            final(ctx).unassigned == old(ctx).unassigned,
            final(ctx).job_multiset() == old(ctx).job_multiset(),
            old(ctx).required@.len() > 0 ==> *final(ctx) == *old(ctx),
            old(ctx).required@.len() == 0 ==> forall|i: int|
                0 <= i < old(ctx).routes@.len() ==> if (
                #[trigger] old(ctx).routes@[i]).route.tour.spec_job_count() > 0 {
                    route_state_accepted(
                        &self.transport,
                        &self.activity,
                        old(ctx).routes@[i],
                        final(ctx).routes@[i],
                    ) && final(ctx).routes@[i].route.tour.activities@[0].schedule.departure == old(
                        ctx,
                    ).routes@[i].route.tour.activities@[0].schedule.departure + departure_shift(
                        old(ctx).routes@[i].route.tour.activities@,
                    )
                } else {
                    final(ctx).routes@[i] == old(ctx).routes@[i]
                },
    {
        let ghost orig = *old(ctx);
        if ctx.required.len() > 0 {
            return ;
        }
        let n = ctx.routes.len();
        let mut i: usize = 0;
        while i < n
            invariant
                self.wf(),
                orig.routes_wf(),
                0 <= i <= n,
                n == ctx.routes@.len(),
                n == orig.routes@.len(),
                ctx.required == orig.required,
                ctx.ignored == orig.ignored,
                ctx.locked == orig.locked,
                ctx.unassigned == orig.unassigned,
                forall|j: int|
                    0 <= j < orig.routes@.len() ==> (
                    #[trigger] orig.routes@[j]).route.tour.activities@[0].schedule.departure
                        <= MAX_TIME,
                forall|j: int|
                    0 <= j < orig.routes@.len() && (
                    #[trigger] orig.routes@[j]).route.tour.activities@.len() >= 2
                        ==> orig.routes@[j].route.tour.activities@[1].schedule.arrival
                        >= orig.routes@[j].route.tour.activities@[0].schedule.departure,
                forall|j: int| i <= j < n ==> #[trigger] ctx.routes@[j] == orig.routes@[j],
                forall|j: int|
                    0 <= j < i ==> (#[trigger] ctx.routes@[j]).wf() && if orig.routes@[j].route.tour.spec_job_count()
                        > 0 {
                        route_state_accepted(
                            &self.transport,
                            &self.activity,
                            orig.routes@[j],
                            ctx.routes@[j],
                        ) && ctx.routes@[j].route.tour.activities@[0].schedule.departure
                            == orig.routes@[j].route.tour.activities@[0].schedule.departure
                            + departure_shift(orig.routes@[j].route.tour.activities@)
                    } else {
                        ctx.routes@[j] == orig.routes@[j]
                    },
                routes_jobs(ctx.routes@) == routes_jobs(orig.routes@),
            decreases n - i,
        {
            let ghost before = ctx.routes@;
            if ctx.routes[i].route.tour.has_jobs() {
                let route_ctx = route_at_mut(&mut ctx.routes, i);
                reschedule_departure(&self.transport, &self.activity, route_ctx);
            }
            proof {
                if orig.routes@[i as int].route.tour.spec_job_count() > 0 {
                    lemma_activity_jobs_same_structure(
                        before[i as int].route.tour.activities@,
                        ctx.routes@[i as int].route.tour.activities@,
                    );
                    lemma_routes_jobs_update(before, i as int, ctx.routes@[i as int]);
                    assert(ctx.routes@ =~= before.update(i as int, ctx.routes@[i as int]));
                    lemma_jobs_add_cancel(
                        routes_jobs(ctx.routes@),
                        routes_jobs(before),
                        route_jobs(before[i as int]),
                    );
                } else {
                    assert(ctx.routes@ =~= before);
                }
            }
            i += 1;
        }
    }

    /// The constraint variants registered by this module: the hard and the
    /// soft timing activity constraints, in that order.
    pub fn get_constraints(&self) -> (r: Vec<ConstraintVariant<'_, T, A>>)
        ensures
            r@.len() == 2,
            r@[0] == ConstraintVariant::HardActivity(
                TimeHardActivityConstraint {
                    code: self.code,
                    activity: &self.activity,
                    transport: &self.transport,
                },
            ),
            r@[1] == ConstraintVariant::SoftActivity(
                TimeSoftActivityConstraint { activity: &self.activity, transport: &self.transport },
            ),
    {
        let mut r: Vec<ConstraintVariant<'_, T, A>> = Vec::new();
        r.push(ConstraintVariant::HardActivity(self.hard_activity_constraint()));
        r.push(ConstraintVariant::SoftActivity(self.soft_activity_constraint()));
        r
    }

    /// The hard timing constraint, sharing this module's oracles.
    pub fn hard_activity_constraint(&self) -> (r: TimeHardActivityConstraint<'_, T, A>)
        ensures
            r.code == self.code,
            r.activity == &self.activity,
            r.transport == &self.transport,
    {
        TimeHardActivityConstraint {
            code: self.code,
            activity: &self.activity,
            transport: &self.transport,
        }
    }

    /// The soft timing constraint, sharing this module's oracles.
    pub fn soft_activity_constraint(&self) -> (r: TimeSoftActivityConstraint<'_, T, A>)
        ensures
            r.activity == &self.activity,
            r.transport == &self.transport,
    {
        TimeSoftActivityConstraint { activity: &self.activity, transport: &self.transport }
    }
}

/// A constraint registered by a module, tagged with its variant.
pub enum ConstraintVariant<'a, T, A> {
    HardActivity(TimeHardActivityConstraint<'a, T, A>),
    SoftActivity(TimeSoftActivityConstraint<'a, T, A>),
}

/// The waiting the slid start of a rescheduled route saves: the waiting at
/// the first activity after the start terminal.
pub open spec fn departure_shift(s: Seq<Activity>) -> int {
    if s.len() >= 2 {
        spec_max(s[1].place.time.start - s[1].schedule.arrival, 0)
    } else {
        0
    }
}

/// Slides the route's start departure forward by the waiting at the first
/// activity, then recomputes schedule and state, so that the first job is
/// reached without waiting while no service starts earlier than before.
pub fn reschedule_departure<T: TransportCost, A: ActivityCost>(
    transport: &T,
    activity: &A,
    ctx: &mut RouteContext,
)
    requires
        transport.wf(),
        activity.wf(),
        old(ctx).wf(),
        old(ctx).route.tour.activities@[0].schedule.departure <= MAX_TIME,
        old(ctx).route.tour.activities@.len() >= 2 ==> old(
            ctx,
        ).route.tour.activities@[1].schedule.arrival >= old(
            ctx,
        ).route.tour.activities@[0].schedule.departure,
    ensures
        final(ctx).wf(),
        route_state_accepted(transport, activity, *old(ctx), *final(ctx)),
        final(ctx).route.tour.activities@[0].schedule.departure == old(
            ctx,
        ).route.tour.activities@[0].schedule.departure + departure_shift(
            old(ctx).route.tour.activities@,
        ),
{
    proof {
        assert(old(ctx).route.tour.activities@[0].wf());
        if old(ctx).route.tour.activities@.len() >= 2 {
            assert(old(ctx).route.tour.activities@[1].wf());
        }
    }
    if ctx.route.tour.activities.len() >= 2 {
        let first = ctx.route.tour.activities[1];
        if first.place.time.start > first.schedule.arrival {
            let shift = first.place.time.start - first.schedule.arrival;
            let mut start = ctx.route.tour.activities[0];
            start.schedule = Schedule {
                arrival: start.schedule.arrival,
                departure: start.schedule.departure + shift,
            };
            ctx.route.tour.activities.set(0, start);
        }
    }
    update_route_schedule_and_state(transport, activity, ctx);
}

/// Shared body of the route acceptance pass: the forward schedule update
/// followed by the backward latest-arrival and waiting update.
pub fn update_route_schedule_and_state<T: TransportCost, A: ActivityCost>(
    transport: &T,
    activity_cost: &A,
    ctx: &mut RouteContext,
)
    requires
        transport.wf(),
        activity_cost.wf(),
        old(ctx).wf(),
        old(ctx).route.tour.activities@[0].schedule.departure <= MAX_TIME,
    ensures
        final(ctx).wf(),
        route_state_accepted(transport, activity_cost, *old(ctx), *final(ctx)),
        final(ctx).route.tour.activities@[0].schedule == old(
            ctx,
        ).route.tour.activities@[0].schedule,
{
    let ghost orig = *old(ctx);
        let len = ctx.route.tour.activities.len();
        let actor = ctx.route.actor;
        let profile = actor.profile;
        proof {
            assert(orig.route.tour.activities@[0].wf());
        }

        // forward pass: update each activity schedule in tour order
        let mut i: usize = 1;
        while i < len
            invariant
                transport.wf(),
                activity_cost.wf(),
                orig.wf(),
                1 <= i <= len,
                len <= crate::MAX_ACTIVITIES,
                actor == orig.route.actor,
                profile == actor.profile,
                len == ctx.route.tour.activities@.len(),
                len == orig.route.tour.activities@.len(),
                ctx.route.actor == orig.route.actor,
                ctx.state == orig.state,
                forall|j: int|
                    0 <= j < len ==> (#[trigger] ctx.route.tour.activities@[j]).place
                        == orig.route.tour.activities@[j].place
                        && ctx.route.tour.activities@[j].job == orig.route.tour.activities@[j].job,
                forall|j: int|
                    i <= j < len ==> (#[trigger] ctx.route.tour.activities@[j]).schedule
                        == orig.route.tour.activities@[j].schedule,
                ctx.route.tour.activities@[0].schedule == orig.route.tour.activities@[0].schedule,
                forall|j: int|
                    1 <= j < i ==> schedule_link(
                        transport,
                        activity_cost,
                        actor,
                        ctx.route.tour.activities@[j - 1],
                        #[trigger] ctx.route.tour.activities@[j],
                    ),
                forall|j: int|
                    0 <= j < i ==> 0 <= (#[trigger] ctx.route.tour.activities@[j]).schedule.arrival
                        <= ctx.route.tour.activities@[j].schedule.departure <= MAX_TIME + 2 * j
                        * MAX_DURATION,
            decreases len - i,
        {
            let prev = ctx.route.tour.activities[i - 1];
            let mut act = ctx.route.tour.activities[i];
            assert(act.place.wf()) by {
                assert(orig.route.tour.activities@[i as int].wf());
            }
            let travel = transport.duration(
                profile,
                prev.place.location,
                act.place.location,
                prev.schedule.departure,
            );
            let arrival = prev.schedule.departure + travel;
            let service = activity_cost.duration(&act.place, arrival);
            let served_from = if arrival >= act.place.time.start {
                arrival
            } else {
                act.place.time.start
            };
            let departure = served_from + service;
            act.schedule = Schedule { arrival, departure };
            ctx.route.tour.activities.set(i, act);
            i += 1;
        }

        // backward pass: update latest arrival and waiting states of job
        // activities
        let ghost fixed = ctx.route.tour.activities@;
        let ghost old_state = ctx.state;
        proof {
            assert forall|j: int| 0 <= j < len implies (#[trigger] fixed[j]).place.wf() by {
                assert(orig.route.tour.activities@[j].wf());
            }
            assert(fixed[0].schedule.departure <= MAX_TIME + 2 * 0 * MAX_DURATION);
        }
        let mut end_time: Timestamp = actor.detail.time.end;
        let mut prev_loc = actor.end_location();
        let mut waiting: Timestamp = 0;
        let mut k: usize = len;
        while k > 0
            invariant
                transport.wf(),
                activity_cost.wf(),
                orig.wf(),
                0 <= k <= len,
                len <= crate::MAX_ACTIVITIES,
                actor == orig.route.actor,
                actor.wf(),
                profile == actor.profile,
                len == fixed.len(),
                ctx.route.tour.activities@ == fixed,
                ctx.route.actor == orig.route.actor,
                forall|j: int| 0 <= j < len ==> (#[trigger] fixed[j]).place.wf(),
                forall|j: int|
                    0 <= j < len ==> 0 <= (#[trigger] fixed[j]).schedule.arrival
                        <= fixed[j].schedule.departure <= MAX_TIME + 2 * j * MAX_DURATION,
                (end_time as int, prev_loc as int, waiting as int) == back_acc(
                    transport,
                    activity_cost,
                    actor,
                    fixed,
                    k as int,
                ),
                end_time <= MAX_TIME,
                end_time >= -((len - k) as int) * 2 * MAX_DURATION,
                0 <= waiting <= ((len - k) as int) * MAX_TIME,
                ctx.state.wf(),
                forall|i2: int|
                    k <= i2 < len && (#[trigger] fixed[i2]).job is Some ==> ctx.state.spec_get(
                        LATEST_ARRIVAL_KEY as int,
                        i2,
                    ) == Some(back_acc(transport, activity_cost, actor, fixed, i2).0 as i64)
                        && ctx.state.spec_get(WAITING_KEY as int, i2) == Some(
                        back_acc(transport, activity_cost, actor, fixed, i2).2 as i64,
                    ),
                forall|i2: int|
                    k <= i2 < len && (#[trigger] fixed[i2]).job is None ==> ctx.state.spec_get(
                        LATEST_ARRIVAL_KEY as int,
                        i2,
                    ) == old_state.spec_get(LATEST_ARRIVAL_KEY as int, i2) && ctx.state.spec_get(
                        WAITING_KEY as int,
                        i2,
                    ) == old_state.spec_get(WAITING_KEY as int, i2),
                forall|k2: int, a: int|
                    !((k2 == LATEST_ARRIVAL_KEY as int || k2 == WAITING_KEY as int) && k <= a < len)
                        ==> #[trigger] ctx.state.spec_get(k2, a) == old_state.spec_get(k2, a),
            decreases k,
        {
            k -= 1;
            let act = ctx.route.tour.activities[k];
            if act.job.is_some() {
                let travel = transport.duration(profile, act.place.location, prev_loc, end_time);
                let service = activity_cost.duration(&act.place, end_time);
                let potential = end_time - travel - service;
                let latest = if act.place.time.end <= potential {
                    act.place.time.end
                } else {
                    potential
                };
                let extra = if act.place.time.start > act.schedule.arrival {
                    act.place.time.start - act.schedule.arrival
                } else {
                    0
                };
                let future_waiting = waiting + extra;
                ctx.state.put_activity_state(LATEST_ARRIVAL_KEY, k, latest);
                ctx.state.put_activity_state(WAITING_KEY, k, future_waiting);
                end_time = latest;
                prev_loc = act.place.location;
                waiting = future_waiting;
            }
        }
    }

} // verus!
