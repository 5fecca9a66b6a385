//! Solution-level context: the routes of a candidate solution together with
//! the jobs still to assign, the ignored ones and the unassigned ones with
//! their violation codes. The central accounting notion is the multiset of
//! all job identifiers a context holds, which every mutation preserves.

use vstd::prelude::*;

use vstd::multiset::Multiset;

use crate::models::Activity;
use crate::route_state::RouteContext;

verus! {

/// A solution under construction or refinement.
#[derive(Clone, PartialEq, Eq, Debug)]
pub struct SolutionContext {
    pub routes: Vec<RouteContext>,
    pub required: Vec<u64>,
    pub ignored: Vec<u64>,
    pub locked: Vec<u64>,
    pub unassigned: Vec<(u64, i32)>,
}

/// The job identifier of one activity, as a multiset with zero or one
/// element.
pub open spec fn job_ms(a: Activity) -> Multiset<u64> {
    match a.job {
        Some(id) => Multiset::empty().insert(id),
        None => Multiset::empty(),
    }
}

/// The multiset of job identifiers served by a sequence of activities.
pub open spec fn activity_jobs(s: Seq<Activity>) -> Multiset<u64>
    decreases s.len(),
{
    if s.len() == 0 {
        Multiset::empty()
    } else {
        activity_jobs(s.drop_last()).add(job_ms(s.last()))
    }
}

/// The multiset of job identifiers assigned to one route.
pub open spec fn route_jobs(rc: RouteContext) -> Multiset<u64> {
    activity_jobs(rc.route.tour.activities@)
}

/// The multiset of job identifiers assigned across a sequence of routes.
pub open spec fn routes_jobs(rs: Seq<RouteContext>) -> Multiset<u64>
    decreases rs.len(),
{
    if rs.len() == 0 {
        Multiset::empty()
    } else {
        routes_jobs(rs.drop_last()).add(route_jobs(rs.last()))
    }
}

/// The multiset of job identifiers in an unassigned map.
pub open spec fn unassigned_jobs(s: Seq<(u64, i32)>) -> Multiset<u64>
    decreases s.len(),
{
    if s.len() == 0 {
        Multiset::empty()
    } else {
        unassigned_jobs(s.drop_last()).insert(s.last().0)
    }
}

impl SolutionContext {
    /// Every job identifier the context holds: assigned to a route, still
    /// required, ignored, or unassigned with a reason.
    pub open spec fn job_multiset(self) -> Multiset<u64> {
        routes_jobs(self.routes@).add(self.required@.to_multiset()).add(
            self.ignored@.to_multiset(),
        ).add(unassigned_jobs(self.unassigned@))
    }

    /// Every route of the context is well formed.
    pub open spec fn routes_wf(self) -> bool {
        forall|i: int| 0 <= i < self.routes@.len() ==> (#[trigger] self.routes@[i]).wf()
    }

    /// Builds a context holding `routes` and `required`, with nothing
    /// ignored, locked or unassigned.
    pub fn new(routes: Vec<RouteContext>, required: Vec<u64>) -> (r: SolutionContext)
        ensures
            r.routes == routes,
            r.required == required,
            r.ignored@.len() == 0,
            r.locked@.len() == 0,
            r.unassigned@.len() == 0,
    {
        SolutionContext {
            routes,
            required,
            ignored: Vec::new(),
            locked: Vec::new(),
            unassigned: Vec::new(),
        }
    }
}

/// Removing the activity at `i` takes exactly its job out of the multiset.
pub proof fn lemma_activity_jobs_remove(s: Seq<Activity>, i: int)
    requires
        0 <= i < s.len(),
    ensures
        activity_jobs(s.remove(i)).add(job_ms(s[i])) == activity_jobs(s),
    decreases s.len(),
{
    if i == s.len() - 1 {
        assert(s.remove(i) =~= s.drop_last());
        assert(activity_jobs(s.remove(i)).add(job_ms(s[i])) =~= activity_jobs(s));
    } else {
        lemma_activity_jobs_remove(s.drop_last(), i);
        assert(s.remove(i).drop_last() =~= s.drop_last().remove(i));
        assert(s.remove(i).last() == s.last());
        assert(activity_jobs(s.remove(i)) == activity_jobs(s.drop_last().remove(i)).add(
            job_ms(s.last()),
        ));
        assert(activity_jobs(s.remove(i)).add(job_ms(s[i])) =~= activity_jobs(
            s.drop_last().remove(i),
        ).add(job_ms(s[i])).add(job_ms(s.last())));
        assert(activity_jobs(s.drop_last().remove(i)).add(job_ms(s[i])) == activity_jobs(
            s.drop_last(),
        ));
        assert(activity_jobs(s.remove(i)).add(job_ms(s[i])) =~= activity_jobs(s));
    }
}

/// Inserting an activity at `i` adds exactly its job to the multiset.
pub proof fn lemma_activity_jobs_insert(s: Seq<Activity>, i: int, a: Activity)
    requires
        0 <= i <= s.len(),
    ensures
        activity_jobs(s.insert(i, a)) == activity_jobs(s).add(job_ms(a)),
    decreases s.len(),
{
    if i == s.len() {
        assert(s.insert(i, a).drop_last() =~= s);
        assert(s.insert(i, a).last() == a);
        assert(activity_jobs(s.insert(i, a)) =~= activity_jobs(s).add(job_ms(a)));
    } else {
        lemma_activity_jobs_insert(s.drop_last(), i, a);
        assert(s.insert(i, a).drop_last() =~= s.drop_last().insert(i, a));
        assert(s.insert(i, a).last() == s.last());
        assert(activity_jobs(s.insert(i, a)) == activity_jobs(s.drop_last().insert(i, a)).add(
            job_ms(s.last()),
        ));
        assert(activity_jobs(s.insert(i, a)) =~= activity_jobs(s).add(job_ms(a)));
    }
}

/// Changing only the schedules of activities leaves the job multiset alone.
pub proof fn lemma_activity_jobs_same_structure(s1: Seq<Activity>, s2: Seq<Activity>)
    requires
        s1.len() == s2.len(),
        forall|i: int| 0 <= i < s1.len() ==> (#[trigger] s2[i]).job == s1[i].job,
    ensures
        activity_jobs(s2) == activity_jobs(s1),
    decreases s1.len(),
{
    if s1.len() > 0 {
        lemma_activity_jobs_same_structure(s1.drop_last(), s2.drop_last());
        assert(activity_jobs(s2) =~= activity_jobs(s1));
    }
}

/// Replacing the route at `i` exchanges exactly its jobs in the multiset.
pub proof fn lemma_routes_jobs_update(rs: Seq<RouteContext>, i: int, x: RouteContext)
    requires
        0 <= i < rs.len(),
    ensures
        routes_jobs(rs.update(i, x)).add(route_jobs(rs[i])) == routes_jobs(rs).add(route_jobs(x)),
    decreases rs.len(),
{
    if i == rs.len() - 1 {
        assert(rs.update(i, x).drop_last() =~= rs.drop_last());
        assert(rs.update(i, x).last() == x);
        assert(routes_jobs(rs.update(i, x)).add(route_jobs(rs[i])) =~= routes_jobs(rs).add(
            route_jobs(x),
        ));
    } else {
        lemma_routes_jobs_update(rs.drop_last(), i, x);
        assert(rs.update(i, x).drop_last() =~= rs.drop_last().update(i, x));
        assert(rs.update(i, x).last() == rs.last());
        assert(routes_jobs(rs.update(i, x)) == routes_jobs(rs.drop_last().update(i, x)).add(
            route_jobs(rs.last()),
        ));
        assert(routes_jobs(rs.update(i, x)).add(route_jobs(rs[i])) =~= routes_jobs(
            rs.drop_last().update(i, x),
        ).add(route_jobs(rs[i])).add(route_jobs(rs.last())));
        assert(rs.drop_last()[i] == rs[i]);
        assert(routes_jobs(rs.drop_last().update(i, x)).add(route_jobs(rs[i])) == routes_jobs(
            rs.drop_last(),
        ).add(route_jobs(x)));
        assert(routes_jobs(rs.update(i, x)).add(route_jobs(rs[i])) =~= routes_jobs(rs).add(
            route_jobs(x),
        ));
    }
}

/// Appending an identifier to a sequence adds it to the sequence's multiset.
pub proof fn lemma_ids_push(s: Seq<u64>, v: u64)
    ensures
        s.push(v).to_multiset() == s.to_multiset().insert(v),
{
    broadcast use vstd::seq_lib::group_to_multiset_ensures;

    assert(s.push(v).to_multiset() =~= s.to_multiset().insert(v));
}

/// Removing the identifier at `i` takes it out of the sequence's multiset.
pub proof fn lemma_ids_remove(s: Seq<u64>, i: int)
    requires
        0 <= i < s.len(),
    ensures
        s.remove(i).to_multiset().insert(s[i]) == s.to_multiset(),
{
    broadcast use vstd::seq_lib::group_to_multiset_ensures;

    assert(s.to_multiset().count(s[i]) > 0) by {
        assert(s.contains(s[i]));
    }
    assert(s.remove(i).to_multiset().insert(s[i]) =~= s.to_multiset().remove(s[i]).insert(s[i]));
    assert(s.to_multiset().remove(s[i]).insert(s[i]) =~= s.to_multiset());
}

/// Hands out a mutable reference to the route context at `i`.
pub fn route_at_mut(v: &mut Vec<RouteContext>, i: usize) -> (r: &mut RouteContext)
    requires
        i < old(v)@.len(),
    ensures
        *r == old(v)@[i as int],
        final(v)@ == old(v)@.update(i as int, *final(r)),
{
    &mut v[i]
}

/// Adding the same multiset on both sides of an equation can be cancelled.
pub proof fn lemma_jobs_add_cancel(a: Multiset<u64>, b: Multiset<u64>, c: Multiset<u64>)
    requires
        a.add(c) == b.add(c),
    ensures
        a == b,
{
    broadcast use vstd::multiset::group_multiset_axioms;

    assert(a =~= b) by {
        assert forall|x: u64| a.count(x) == b.count(x) by {
            vstd::multiset::axiom_multiset_add(a, c, x);
            vstd::multiset::axiom_multiset_add(b, c, x);
            assert(a.add(c).count(x) == b.add(c).count(x));
        }
    }
}

/// Concatenating route sequences adds their job multisets.
pub proof fn lemma_routes_jobs_concat(a: Seq<RouteContext>, b: Seq<RouteContext>)
    ensures
        routes_jobs(a + b) == routes_jobs(a).add(routes_jobs(b)),
    decreases b.len(),
{
    broadcast use vstd::multiset::group_multiset_axioms;

    if b.len() == 0 {
        assert(a + b =~= a);
        assert(routes_jobs(a).add(routes_jobs(b)) =~= routes_jobs(a));
    } else {
        lemma_routes_jobs_concat(a, b.drop_last());
        assert((a + b).drop_last() =~= a + b.drop_last());
        assert((a + b).last() == b.last());
        assert(routes_jobs(a + b) == routes_jobs(a).add(routes_jobs(b.drop_last())).add(
            route_jobs(b.last()),
        ));
        assert(routes_jobs(a).add(routes_jobs(b.drop_last())).add(route_jobs(b.last()))
            =~= routes_jobs(a).add(routes_jobs(b)));
    }
}

/// Concatenating identifier sequences adds their multisets.
pub proof fn lemma_ids_concat(a: Seq<u64>, b: Seq<u64>)
    ensures
        (a + b).to_multiset() == a.to_multiset().add(b.to_multiset()),
    decreases b.len(),
{
    broadcast use vstd::multiset::group_multiset_axioms;
    broadcast use vstd::seq_lib::group_to_multiset_ensures;

    if b.len() == 0 {
        assert(a + b =~= a);
        assert(b.to_multiset().len() == 0);
        assert(a.to_multiset().add(b.to_multiset()) =~= a.to_multiset());
    } else {
        lemma_ids_concat(a, b.drop_last());
        assert(a + b =~= (a + b.drop_last()).push(b.last()));
        lemma_ids_push(a + b.drop_last(), b.last());
        assert(b =~= b.drop_last().push(b.last()));
        lemma_ids_push(b.drop_last(), b.last());
        assert(a.to_multiset().add(b.drop_last().to_multiset()).insert(b.last())
            =~= a.to_multiset().add(b.to_multiset()));
    }
}

/// Concatenating unassigned maps adds their job multisets.
pub proof fn lemma_unassigned_concat(a: Seq<(u64, i32)>, b: Seq<(u64, i32)>)
    ensures
        unassigned_jobs(a + b) == unassigned_jobs(a).add(unassigned_jobs(b)),
    decreases b.len(),
{
    broadcast use vstd::multiset::group_multiset_axioms;

    if b.len() == 0 {
        assert(a + b =~= a);
        assert(unassigned_jobs(a).add(unassigned_jobs(b)) =~= unassigned_jobs(a));
    } else {
        lemma_unassigned_concat(a, b.drop_last());
        assert((a + b).drop_last() =~= a + b.drop_last());
        assert((a + b).last() == b.last());
        assert(unassigned_jobs(a + b) == unassigned_jobs(a).add(
            unassigned_jobs(b.drop_last()),
        ).insert(b.last().0));
        assert(unassigned_jobs(a).add(unassigned_jobs(b.drop_last())).insert(b.last().0)
            =~= unassigned_jobs(a).add(unassigned_jobs(b)));
    }
}

/// Every sequence is a prefix of itself.
pub proof fn lemma_prefix_refl(s: Seq<u64>)
    ensures
        s.is_prefix_of(s),
{
    assert(s.subrange(0, s.len() as int) =~= s);
}

/// A prefix survives appending to the longer sequence.
pub proof fn lemma_prefix_push(s1: Seq<u64>, s2: Seq<u64>, v: u64)
    requires
        s1.is_prefix_of(s2),
    ensures
        s1.is_prefix_of(s2.push(v)),
{
    assert(s2.push(v).subrange(0, s1.len() as int) =~= s2.subrange(0, s1.len() as int));
}

/// Being a prefix is transitive.
pub proof fn lemma_prefix_trans(s1: Seq<u64>, s2: Seq<u64>, s3: Seq<u64>)
    requires
        s1.is_prefix_of(s2),
        s2.is_prefix_of(s3),
    ensures
        s1.is_prefix_of(s3),
{
    assert(s3.subrange(0, s1.len() as int) =~= s3.subrange(0, s2.len() as int).subrange(
        0,
        s1.len() as int,
    ));
}

/// Appending an unassigned entry adds its job to the unassigned multiset.
pub proof fn lemma_unassigned_push(s: Seq<(u64, i32)>, v: (u64, i32))
    ensures
        unassigned_jobs(s.push(v)) == unassigned_jobs(s).insert(v.0),
{
    assert(s.push(v).drop_last() =~= s);
}

/// Moving the job of one route activity into the required list leaves the
/// combined multiset of assigned and required jobs unchanged.
pub proof fn lemma_ms_job_to_required(
    routes_old: Seq<RouteContext>,
    routes_new: Seq<RouteContext>,
    i: int,
    act_idx: int,
    id: u64,
    req_old: Seq<u64>,
    req_new: Seq<u64>,
)
    requires
        0 <= i < routes_old.len(),
        routes_new.len() == routes_old.len(),
        forall|j: int| 0 <= j < routes_new.len() && j != i ==> routes_new[j] == routes_old[j],
        0 <= act_idx < routes_old[i].route.tour.activities@.len(),
        routes_old[i].route.tour.activities@[act_idx].job == Some(id),
        routes_new[i].route.tour.activities@ == routes_old[i].route.tour.activities@.remove(
            act_idx,
        ),
        req_new == req_old.push(id),
    ensures
        routes_jobs(routes_new).add(req_new.to_multiset()) == routes_jobs(routes_old).add(
            req_old.to_multiset(),
        ),
{
    broadcast use vstd::multiset::group_multiset_axioms;

    assert(routes_new =~= routes_old.update(i, routes_new[i]));
    lemma_routes_jobs_update(routes_old, i, routes_new[i]);
    lemma_activity_jobs_remove(routes_old[i].route.tour.activities@, act_idx);
    lemma_ids_push(req_old, id);
    assert(routes_jobs(routes_new).add(req_new.to_multiset()) =~= routes_jobs(routes_old).add(
        req_old.to_multiset(),
    )) by {
        assert forall|x: u64|
            routes_jobs(routes_new).count(x) + req_new.to_multiset().count(x) == routes_jobs(
                routes_old,
            ).count(x) + req_old.to_multiset().count(x) by {
            assert(routes_jobs(routes_new).add(route_jobs(routes_old[i])).count(x)
                == routes_jobs(routes_old).add(route_jobs(routes_new[i])).count(x));
            assert(route_jobs(routes_new[i]).add(job_ms(
                routes_old[i].route.tour.activities@[act_idx],
            )).count(x) == route_jobs(routes_old[i]).count(x));
        }
    }
}

/// Inserting an activity for a required job into a route leaves the
/// combined multiset of assigned and required jobs unchanged.
pub proof fn lemma_ms_required_to_route(
    routes_old: Seq<RouteContext>,
    routes_new: Seq<RouteContext>,
    i: int,
    act_idx: int,
    a: Activity,
    id: u64,
    req_old: Seq<u64>,
    req_new: Seq<u64>,
    req_idx: int,
)
    requires
        0 <= i < routes_old.len(),
        routes_new.len() == routes_old.len(),
        forall|j: int| 0 <= j < routes_new.len() && j != i ==> routes_new[j] == routes_old[j],
        0 <= act_idx <= routes_old[i].route.tour.activities@.len(),
        a.job == Some(id),
        activity_jobs(routes_new[i].route.tour.activities@) == activity_jobs(
            routes_old[i].route.tour.activities@.insert(act_idx, a),
        ),
        0 <= req_idx < req_old.len(),
        req_old[req_idx] == id,
        req_new == req_old.remove(req_idx),
    ensures
        routes_jobs(routes_new).add(req_new.to_multiset()) == routes_jobs(routes_old).add(
            req_old.to_multiset(),
        ),
{
    broadcast use vstd::multiset::group_multiset_axioms;

    assert(routes_new =~= routes_old.update(i, routes_new[i]));
    lemma_routes_jobs_update(routes_old, i, routes_new[i]);
    lemma_activity_jobs_insert(routes_old[i].route.tour.activities@, act_idx, a);
    lemma_ids_remove(req_old, req_idx);
    assert(routes_jobs(routes_new).add(req_new.to_multiset()) =~= routes_jobs(routes_old).add(
        req_old.to_multiset(),
    )) by {
        assert forall|x: u64|
            routes_jobs(routes_new).count(x) + req_new.to_multiset().count(x) == routes_jobs(
                routes_old,
            ).count(x) + req_old.to_multiset().count(x) by {
            assert(routes_jobs(routes_new).add(route_jobs(routes_old[i])).count(x)
                == routes_jobs(routes_old).add(route_jobs(routes_new[i])).count(x));
            assert(route_jobs(routes_new[i]).count(x) == route_jobs(routes_old[i]).add(
                job_ms(a),
            ).count(x));
            assert(req_new.to_multiset().count(x) + if x == id {
                1int
            } else {
                0int
            } == req_old.to_multiset().count(x));
        }
    }
}

/// Moving a required job into the unassigned map leaves the combined
/// multiset of required and unassigned jobs unchanged.
pub proof fn lemma_ms_required_to_unassigned(
    req_old: Seq<u64>,
    req_new: Seq<u64>,
    req_idx: int,
    id: u64,
    code: i32,
    una_old: Seq<(u64, i32)>,
    una_new: Seq<(u64, i32)>,
)
    requires
        0 <= req_idx < req_old.len(),
        req_old[req_idx] == id,
        req_new == req_old.remove(req_idx),
        una_new == una_old.push((id, code)),
    ensures
        req_new.to_multiset().add(unassigned_jobs(una_new)) == req_old.to_multiset().add(
            unassigned_jobs(una_old),
        ),
{
    broadcast use vstd::multiset::group_multiset_axioms;

    lemma_ids_remove(req_old, req_idx);
    lemma_unassigned_push(una_old, (id, code));
    assert(req_new.to_multiset().add(unassigned_jobs(una_new)) =~= req_old.to_multiset().add(
        unassigned_jobs(una_old),
    ));
}

/// The combined job multiset of a context, grouped as the sum of its four
/// parts, is unchanged when the parts shift jobs among themselves as the
/// hypotheses say.
pub proof fn lemma_job_multiset_parts(c1: SolutionContext, c2: SolutionContext)
    requires
        routes_jobs(c2.routes@).add(c2.required@.to_multiset()) == routes_jobs(c1.routes@).add(
            c1.required@.to_multiset(),
        ),
        c2.ignored@ == c1.ignored@,
        unassigned_jobs(c2.unassigned@) == unassigned_jobs(c1.unassigned@),
    ensures
        c2.job_multiset() == c1.job_multiset(),
{
    broadcast use vstd::multiset::group_multiset_axioms;

    assert(c2.job_multiset() =~= c1.job_multiset()) by {
        assert forall|x: u64| c2.job_multiset().count(x) == c1.job_multiset().count(x) by {
            let rq2 = routes_jobs(c2.routes@).add(c2.required@.to_multiset());
            let rq1 = routes_jobs(c1.routes@).add(c1.required@.to_multiset());
            assert(rq2.count(x) == rq1.count(x));
            assert(rq2.add(c2.ignored@.to_multiset()).count(x) == rq1.add(
                c1.ignored@.to_multiset(),
            ).count(x));
            assert(rq2.add(c2.ignored@.to_multiset()).add(unassigned_jobs(c2.unassigned@)).count(
                x,
            ) == rq1.add(c1.ignored@.to_multiset()).add(unassigned_jobs(c1.unassigned@)).count(x));
        }
    }
}

/// The same, when jobs shift between the required list and the unassigned
/// map only.
pub proof fn lemma_job_multiset_parts_unassigned(c1: SolutionContext, c2: SolutionContext)
    requires
        c2.required@.to_multiset().add(unassigned_jobs(c2.unassigned@))
            == c1.required@.to_multiset().add(unassigned_jobs(c1.unassigned@)),
        c2.ignored@ == c1.ignored@,
        routes_jobs(c2.routes@) == routes_jobs(c1.routes@),
    ensures
        c2.job_multiset() == c1.job_multiset(),
{
    broadcast use vstd::multiset::group_multiset_axioms;

    assert(c2.job_multiset() =~= c1.job_multiset()) by {
        assert forall|x: u64| c2.job_multiset().count(x) == c1.job_multiset().count(x) by {
            let a2 = routes_jobs(c2.routes@);
            let b2 = c2.required@.to_multiset();
            let g2 = c2.ignored@.to_multiset();
            let u2 = unassigned_jobs(c2.unassigned@);
            let a1 = routes_jobs(c1.routes@);
            let b1 = c1.required@.to_multiset();
            let g1 = c1.ignored@.to_multiset();
            let u1 = unassigned_jobs(c1.unassigned@);
            assert(b2.add(u2).count(x) == b2.count(x) + u2.count(x));
            assert(b1.add(u1).count(x) == b1.count(x) + u1.count(x));
            assert(a2.add(b2).count(x) == a2.count(x) + b2.count(x));
            assert(a2.add(b2).add(g2).count(x) == a2.add(b2).count(x) + g2.count(x));
            assert(a2.add(b2).add(g2).add(u2).count(x) == a2.add(b2).add(g2).count(x) + u2.count(
                x,
            ));
            assert(a1.add(b1).count(x) == a1.count(x) + b1.count(x));
            assert(a1.add(b1).add(g1).count(x) == a1.add(b1).count(x) + g1.count(x));
            assert(a1.add(b1).add(g1).add(u1).count(x) == a1.add(b1).add(g1).count(x) + u1.count(
                x,
            ));
        }
    }
}

} // verus!
