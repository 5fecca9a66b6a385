//! Mutation operators of the refinement loop: ruin operators move assigned
//! jobs back into the required set, recreate operators insert required jobs
//! at their cheapest feasible position, local-search operators rearrange a
//! solution in place, and composed mutations chain them. Every operator
//! preserves the multiset of jobs its context holds.

use vstd::prelude::*;

use vstd::multiset::Multiset;

use crate::common::{Cost, MAX_TIME};
use crate::insertion::{waiting_states_nonneg, InsertionContext};
use crate::models::{Activity, Job, Place};
use crate::oracles::{ActivityCost, MatrixTransportCost, SimpleActivityCost, TransportCost};
use crate::random::Random;
use crate::route_state::RouteContext;
use crate::solution::{
    lemma_job_multiset_parts, lemma_job_multiset_parts_unassigned, lemma_ms_job_to_required,
    lemma_ms_required_to_route, lemma_ms_required_to_unassigned, route_at_mut, routes_jobs,
    unassigned_jobs, SolutionContext,
};
use crate::timing::{
    estimate_activity_spec, hard_activity_result, update_route_schedule_and_state,
    ActivityConstraintViolation, ActivityContext, TimeHardActivityConstraint,
    TimeSoftActivityConstraint, LATEST_ARRIVAL_KEY, WAITING_KEY,
};
use crate::MAX_ACTIVITIES;

verus! {

/// The violation code the recreate step records for a job it cannot place.
pub const UNASSIGNED_CODE: i32 = 1;

/// The phase the population search is in; context-aware probabilities gate
/// operators on it.
#[derive(Clone, Copy, PartialEq, Eq, Structural, Debug, Hash)]
pub enum SelectionPhase {
    Initial,
    Exploration,
    Exploitation,
}

/// What the refinement loop knows between generations.
#[derive(Clone, Copy, PartialEq, Eq, Structural, Debug)]
pub struct RefinementContext {
    pub generation: usize,
    pub selection_phase: SelectionPhase,
}

/// A mutation of one candidate. Whatever it does, it returns a well-formed
/// candidate holding exactly the jobs of its input.
pub trait Mutation {
    /// Mutates the candidate.
    fn mutate(
        &self,
        refinement_ctx: &RefinementContext,
        insertion_ctx: InsertionContext,
        random: &mut Random,
    ) -> (r: InsertionContext)
        requires
            insertion_ctx.wf(),
        ensures
            r.wf(),
            r.solution.job_multiset() == insertion_ctx.solution.job_multiset(),
            r.problem == insertion_ctx.problem,
    ;
}

/// A ruin operator: moves jobs from routes back into the required set. It
/// only ever appends to the required list and touches nothing ignored,
/// locked or unassigned.
pub trait Ruin {
    /// Ruins the candidate.
    fn ruin_solution(&self, insertion_ctx: InsertionContext, random: &mut Random) -> (r:
        InsertionContext)
        requires
            insertion_ctx.wf(),
        ensures
            r.wf(),
            r.solution.job_multiset() == insertion_ctx.solution.job_multiset(),
            r.problem == insertion_ctx.problem,
            r.solution.ignored == insertion_ctx.solution.ignored,
            r.solution.locked == insertion_ctx.solution.locked,
            r.solution.unassigned == insertion_ctx.solution.unassigned,
            insertion_ctx.solution.required@.is_prefix_of(r.solution.required@),
    ;
}

/// A recreate operator: empties the required set, inserting each job into a
/// route or recording it as unassigned.
pub trait Recreate {
    /// Recreates the candidate.
    fn run(&self, insertion_ctx: InsertionContext, random: &mut Random) -> (r: InsertionContext)
        requires
            insertion_ctx.wf(),
        ensures
            r.wf(),
            r.solution.job_multiset() == insertion_ctx.solution.job_multiset(),
            r.problem == insertion_ctx.problem,
            r.solution.required@.len() == 0,
    ;
}

/// A local-search operator: explores one neighbourhood move. The flag says
/// whether a move was applied; without one the candidate comes back
/// unchanged.
pub trait LocalOperator {
    /// Explores one move.
    fn explore(
        &self,
        refinement_ctx: &RefinementContext,
        insertion_ctx: InsertionContext,
        random: &mut Random,
    ) -> (r: (InsertionContext, bool))
        requires
            insertion_ctx.wf(),
        ensures
            r.0.wf(),
            r.0.solution.job_multiset() == insertion_ctx.solution.job_multiset(),
            r.0.problem == insertion_ctx.problem,
            r.0.solution.ignored == insertion_ctx.solution.ignored,
            r.0.solution.locked == insertion_ctx.solution.locked,
            r.0.solution.unassigned == insertion_ctx.solution.unassigned,
            insertion_ctx.solution.required@.is_prefix_of(r.0.solution.required@),
            !r.1 ==> r.0 == insertion_ctx,
    ;
}

/// A mutation operator which applies local search principles.
pub struct LocalSearch<O> {
    pub operator: O,
}

impl<O> LocalSearch<O> {
    /// Creates a new instance around a local operator.
    pub fn new(operator: O) -> (r: LocalSearch<O>)
        ensures
            r.operator == operator,
    {
        LocalSearch { operator }
    }
}

impl<O: LocalOperator> LocalSearch<O> {
    /// One exploration of the operator, with the full relation: the flag
    /// says whether a move applied, and without one the candidate comes
    /// back unchanged. `mutate` returns the first component of this.
    pub fn explore(
        &self,
        refinement_ctx: &RefinementContext,
        insertion_ctx: InsertionContext,
        random: &mut Random,
    ) -> (r: (InsertionContext, bool))
        requires
            insertion_ctx.wf(),
        ensures
            r.0.wf(),
            r.0.solution.job_multiset() == insertion_ctx.solution.job_multiset(),
            r.0.problem == insertion_ctx.problem,
            r.0.solution.ignored == insertion_ctx.solution.ignored,
            r.0.solution.locked == insertion_ctx.solution.locked,
            r.0.solution.unassigned == insertion_ctx.solution.unassigned,
            insertion_ctx.solution.required@.is_prefix_of(r.0.solution.required@),
            !r.1 ==> r.0 == insertion_ctx,
    {
        self.operator.explore(refinement_ctx, insertion_ctx, random)
    }
}

impl<O: LocalOperator> Mutation for LocalSearch<O> {
    fn mutate(
        &self,
        refinement_ctx: &RefinementContext,
        insertion_ctx: InsertionContext,
        random: &mut Random,
    ) -> (r: InsertionContext) {
        let (ctx, _) = self.explore(refinement_ctx, insertion_ctx, random);
        ctx
    }
}

/// A mutation which ruins part of the solution and recreates it.
pub struct RuinAndRecreate<R, C> {
    pub ruin: R,
    pub recreate: C,
}

impl<R, C> RuinAndRecreate<R, C> {
    /// Creates a new instance from a ruin and a recreate operator.
    pub fn new(recreate: C, ruin: R) -> (r: RuinAndRecreate<R, C>)
        ensures
            r.ruin == ruin,
            r.recreate == recreate,
    {
        RuinAndRecreate { ruin, recreate }
    }
}

impl<R: Ruin, C: Recreate> Mutation for RuinAndRecreate<R, C> {
    fn mutate(
        &self,
        refinement_ctx: &RefinementContext,
        insertion_ctx: InsertionContext,
        random: &mut Random,
    ) -> (r: InsertionContext) {
        let ruined = self.ruin.ruin_solution(insertion_ctx, random);
        self.recreate.run(ruined, random)
    }
}

/// A rearrangement step of the decomposition accounting: absorbing one
/// chunk's sub-result into the accumulators keeps the grand total.
proof fn lemma_decompose_step(
    r1: Multiset<u64>,
    q1: Multiset<u64>,
    g1: Multiset<u64>,
    u1: Multiset<u64>,
    chunk: Multiset<u64>,
    rem: Multiset<u64>,
    sr: Multiset<u64>,
    sq: Multiset<u64>,
    sg: Multiset<u64>,
    su: Multiset<u64>,
    t0: Multiset<u64>,
)
    requires
        r1.add(q1).add(g1).add(u1).add(chunk.add(rem)) == t0,
        sr.add(sq).add(sg).add(su) == chunk,
    ensures
        r1.add(sr).add(q1.add(sq)).add(g1.add(sg)).add(u1.add(su)).add(rem) == t0,
{
    broadcast use vstd::multiset::group_multiset_axioms;

    assert(r1.add(sr).add(q1.add(sq)).add(g1.add(sg)).add(u1.add(su)).add(rem) =~= t0) by {
        assert forall|x: u64|
            r1.add(sr).add(q1.add(sq)).add(g1.add(sg)).add(u1.add(su)).add(rem).count(x)
                == t0.count(x) by {
            assert(r1.add(q1).add(g1).add(u1).add(chunk.add(rem)).count(x) == t0.count(x));
            assert(sr.add(sq).add(sg).add(su).count(x) == chunk.count(x));
            assert(r1.add(q1).count(x) == r1.count(x) + q1.count(x));
            assert(r1.add(q1).add(g1).count(x) == r1.add(q1).count(x) + g1.count(x));
            assert(r1.add(q1).add(g1).add(u1).count(x) == r1.add(q1).add(g1).count(x) + u1.count(
                x,
            ));
            assert(chunk.add(rem).count(x) == chunk.count(x) + rem.count(x));
            assert(r1.add(q1).add(g1).add(u1).add(chunk.add(rem)).count(x) == r1.add(q1).add(
                g1,
            ).add(u1).count(x) + chunk.add(rem).count(x));
            assert(sr.add(sq).count(x) == sr.count(x) + sq.count(x));
            assert(sr.add(sq).add(sg).count(x) == sr.add(sq).count(x) + sg.count(x));
            assert(sr.add(sq).add(sg).add(su).count(x) == sr.add(sq).add(sg).count(x) + su.count(
                x,
            ));
            assert(r1.add(sr).count(x) == r1.count(x) + sr.count(x));
            assert(q1.add(sq).count(x) == q1.count(x) + sq.count(x));
            assert(g1.add(sg).count(x) == g1.count(x) + sg.count(x));
            assert(u1.add(su).count(x) == u1.count(x) + su.count(x));
            assert(r1.add(sr).add(q1.add(sq)).count(x) == r1.add(sr).count(x) + q1.add(sq).count(
                x,
            ));
            assert(r1.add(sr).add(q1.add(sq)).add(g1.add(sg)).count(x) == r1.add(sr).add(
                q1.add(sq),
            ).count(x) + g1.add(sg).count(x));
            assert(r1.add(sr).add(q1.add(sq)).add(g1.add(sg)).add(u1.add(su)).count(x) == r1.add(
                sr,
            ).add(q1.add(sq)).add(g1.add(sg)).count(x) + u1.add(su).count(x));
            assert(r1.add(sr).add(q1.add(sq)).add(g1.add(sg)).add(u1.add(su)).add(rem).count(x)
                == r1.add(sr).add(q1.add(sq)).add(g1.add(sg)).add(u1.add(su)).count(x)
                + rem.count(x));
        }
    }
}

/// Partitions the solution into disjoint route subsets, applies the inner
/// mutation to each sub-solution in turn, and merges the results. The
/// required, ignored and unassigned jobs stay aside during the sub-runs and
/// are reattached on merge, so the decomposition preserves the job
/// multiset whenever the inner mutation does.
pub struct DecomposeSearch<M> {
    pub inner: M,
    pub min_parts: usize,
    pub max_parts: usize,
    pub repetitions: usize,
}

impl<M> DecomposeSearch<M> {
    /// Creates the decomposition around `inner`, with the number of
    /// sub-solutions drawn from `route_range` and `repetitions` inner runs
    /// per sub-solution.
    pub fn new(inner: M, route_range: (usize, usize), repetitions: usize) -> (r: DecomposeSearch<
        M,
    >)
        ensures
            r.inner == inner,
            r.min_parts == route_range.0,
            r.max_parts == route_range.1,
            r.repetitions == repetitions,
    {
        DecomposeSearch { inner, min_parts: route_range.0, max_parts: route_range.1, repetitions }
    }
}

impl<M: Mutation> Mutation for DecomposeSearch<M> {
    #[verifier::loop_isolation(false)]
    fn mutate(
        &self,
        refinement_ctx: &RefinementContext,
        insertion_ctx: InsertionContext,
        random: &mut Random,
    ) -> (r: InsertionContext) {
        let ghost orig = insertion_ctx;
        let ghost t0 = insertion_ctx.solution.job_multiset();
        let InsertionContext { problem, solution } = insertion_ctx;
        let SolutionContext { routes, required, ignored, locked, unassigned } = solution;
        let total_routes = routes.len();
        if total_routes == 0 {
            let rebuilt = InsertionContext {
                problem,
                solution: SolutionContext { routes, required, ignored, locked, unassigned },
            };
            proof {
                assert(rebuilt == orig);
            }
            return self.inner.mutate(refinement_ctx, rebuilt, random);
        }
        let drawn = if self.min_parts < self.max_parts {
            random.next_in_range(self.min_parts, self.max_parts)
        } else {
            self.min_parts
        };
        let parts = if drawn < 1 {
            1
        } else if drawn > total_routes {
            total_routes
        } else {
            drawn
        };
        proof {
            vstd::arithmetic::div_mod::lemma_div_nonincreasing(total_routes as int, parts as int);
            vstd::arithmetic::div_mod::lemma_div_pos_is_pos(total_routes as int, parts as int);
            vstd::arithmetic::div_mod::lemma_div_non_zero(total_routes as int, parts as int);
        }
        let quotient = total_routes / parts;
        let chunk_size = if total_routes % parts != 0 && quotient < total_routes {
            quotient + 1
        } else if quotient >= 1 {
            quotient
        } else {
            1
        };

        let mut remaining = routes;
        let mut out_routes: Vec<RouteContext> = Vec::new();
        let mut out_req: Vec<u64> = required;
        let mut out_ign: Vec<u64> = ignored;
        let mut out_lock: Vec<u64> = locked;
        let mut out_una: Vec<(u64, i32)> = unassigned;
        let mut problem = problem;
        proof {
            assert(routes_jobs(Seq::<RouteContext>::empty()) == Multiset::<u64>::empty());
            assert(routes_jobs(out_routes@).add(out_req@.to_multiset()).add(
                out_ign@.to_multiset(),
            ).add(unassigned_jobs(out_una@)).add(routes_jobs(remaining@)) =~= t0);
        }
        while remaining.len() > 0
            invariant
                problem == orig.problem,
                forall|i: int|
                    0 <= i < remaining@.len() ==> (#[trigger] remaining@[i]).wf()
                        && remaining@[i].route.tour.activities@[0].schedule.departure <= MAX_TIME
                        && waiting_states_nonneg(remaining@[i]),
                forall|i: int|
                    0 <= i < out_routes@.len() ==> (#[trigger] out_routes@[i]).wf()
                        && out_routes@[i].route.tour.activities@[0].schedule.departure <= MAX_TIME
                        && waiting_states_nonneg(out_routes@[i]),
                routes_jobs(out_routes@).add(out_req@.to_multiset()).add(
                    out_ign@.to_multiset(),
                ).add(unassigned_jobs(out_una@)).add(routes_jobs(remaining@)) == t0,
                chunk_size >= 1,
            decreases remaining@.len(),
        {
            let ghost rem_pre = remaining@;
            let k = if chunk_size < remaining.len() {
                chunk_size
            } else {
                remaining.len()
            };
            let rest = remaining.split_off(k);
            let chunk = remaining;
            remaining = rest;
            proof {
                assert(rem_pre =~= chunk@ + remaining@);
                crate::solution::lemma_routes_jobs_concat(chunk@, remaining@);
                assert forall|i: int| 0 <= i < chunk@.len() implies (#[trigger] chunk@[i]).wf()
                    && chunk@[i].route.tour.activities@[0].schedule.departure <= MAX_TIME
                    && waiting_states_nonneg(chunk@[i]) by {
                    assert(chunk@[i] == rem_pre[i]);
                }
                assert forall|i: int| 0 <= i < remaining@.len() implies (
                #[trigger] remaining@[i]).wf()
                    && remaining@[i].route.tour.activities@[0].schedule.departure <= MAX_TIME
                    && waiting_states_nonneg(remaining@[i]) by {
                    assert(remaining@[i] == rem_pre[k + i]);
                }
            }
            let ghost chunk_ms = routes_jobs(chunk@);
            let sub_solution = SolutionContext {
                routes: chunk,
                required: Vec::new(),
                ignored: Vec::new(),
                locked: Vec::new(),
                unassigned: Vec::new(),
            };
            let mut sub_ctx = InsertionContext { problem, solution: sub_solution };
            proof {
                broadcast use vstd::multiset::group_multiset_axioms;
                broadcast use vstd::seq_lib::group_to_multiset_ensures;

                assert(sub_ctx.solution.job_multiset() =~= chunk_ms);
            }
            let mut rep: usize = 0;
            while rep < self.repetitions
                invariant
                    sub_ctx.wf(),
                    sub_ctx.solution.job_multiset() == chunk_ms,
                    sub_ctx.problem == orig.problem,
                decreases self.repetitions - rep,
            {
                sub_ctx = self.inner.mutate(refinement_ctx, sub_ctx, random);
                rep += 1;
            }
            let InsertionContext { problem: problem_back, solution: sub_out } = sub_ctx;
            problem = problem_back;
            let SolutionContext {
                routes: mut sub_routes,
                required: mut sub_req,
                ignored: mut sub_ign,
                locked: mut sub_lock,
                unassigned: mut sub_una,
            } = sub_out;
            let ghost out_routes_pre = out_routes@;
            let ghost out_req_pre = out_req@;
            let ghost out_ign_pre = out_ign@;
            let ghost out_una_pre = out_una@;
            let ghost sub_routes_pre = sub_routes@;
            let ghost sub_req_pre = sub_req@;
            let ghost sub_ign_pre = sub_ign@;
            let ghost sub_una_pre = sub_una@;
            out_routes.append(&mut sub_routes);
            out_req.append(&mut sub_req);
            out_ign.append(&mut sub_ign);
            out_lock.append(&mut sub_lock);
            out_una.append(&mut sub_una);
            proof {
                crate::solution::lemma_routes_jobs_concat(out_routes_pre, sub_routes_pre);
                crate::solution::lemma_ids_concat(out_req_pre, sub_req_pre);
                crate::solution::lemma_ids_concat(out_ign_pre, sub_ign_pre);
                crate::solution::lemma_unassigned_concat(out_una_pre, sub_una_pre);
                lemma_decompose_step(
                    routes_jobs(out_routes_pre),
                    out_req_pre.to_multiset(),
                    out_ign_pre.to_multiset(),
                    unassigned_jobs(out_una_pre),
                    chunk_ms,
                    routes_jobs(remaining@),
                    routes_jobs(sub_routes_pre),
                    sub_req_pre.to_multiset(),
                    sub_ign_pre.to_multiset(),
                    unassigned_jobs(sub_una_pre),
                    t0,
                );
                assert forall|i: int| 0 <= i < out_routes@.len() implies (
                #[trigger] out_routes@[i]).wf()
                    && out_routes@[i].route.tour.activities@[0].schedule.departure <= MAX_TIME
                    && waiting_states_nonneg(out_routes@[i]) by {
                    if i < out_routes_pre.len() {
                        assert(out_routes@[i] == out_routes_pre[i]);
                    } else {
                        assert(out_routes@[i] == sub_routes_pre[i - out_routes_pre.len()]);
                    }
                }
            }
        }
        let result = InsertionContext {
            problem,
            solution: SolutionContext {
                routes: out_routes,
                required: out_req,
                ignored: out_ign,
                locked: out_lock,
                unassigned: out_una,
            },
        };
        proof {
            broadcast use vstd::multiset::group_multiset_axioms;

            assert(routes_jobs(result.solution.routes@).add(
                result.solution.required@.to_multiset(),
            ).add(result.solution.ignored@.to_multiset()).add(
                unassigned_jobs(result.solution.unassigned@),
            ).add(routes_jobs(Seq::<RouteContext>::empty())) == t0);
            assert(result.solution.job_multiset() =~= t0);
        }
        result
    }
}

/// Caps how many jobs one ruin invocation may remove. `ratio` is in basis
/// points of the assigned jobs.
#[derive(Clone, Copy, PartialEq, Eq, Structural, Debug)]
pub struct JobRemovalLimit {
    pub min: usize,
    pub max: usize,
    pub ratio: u32,
}

impl JobRemovalLimit {
    /// Builds a limit.
    pub fn new(min: usize, max: usize, ratio: u32) -> (r: JobRemovalLimit)
        ensures
            r == (JobRemovalLimit { min, max, ratio }),
    {
        JobRemovalLimit { min, max, ratio }
    }
}

impl Default for JobRemovalLimit {
    /// The default removal limit: between two and eight jobs, a tenth of
    /// the assignment.
    fn default() -> (r: JobRemovalLimit)
        ensures
            r == (JobRemovalLimit { min: 2, max: 8, ratio: 1000u32 }),
    {
        JobRemovalLimit { min: 2, max: 8, ratio: 1000 }
    }
}

/// Removes randomly chosen jobs from randomly chosen routes, up to the
/// removal limit.
#[derive(Clone, Copy, PartialEq, Eq, Structural, Debug)]
pub struct RandomJobRemoval {
    pub limit: JobRemovalLimit,
}

impl RandomJobRemoval {
    /// Creates the operator with the given limit.
    pub fn new(limit: JobRemovalLimit) -> (r: RandomJobRemoval)
        ensures
            r.limit == limit,
    {
        RandomJobRemoval { limit }
    }
}

impl Default for RandomJobRemoval {
    /// The operator with the default removal limit.
    fn default() -> (r: RandomJobRemoval)
        ensures
            r.limit == (JobRemovalLimit { min: 2, max: 8, ratio: 1000u32 }),
    {
        RandomJobRemoval { limit: JobRemovalLimit::default() }
    }
}

/// Takes the job activity at `act_idx` out of route `route_idx` and appends
/// its job to the required list.
pub fn remove_job_activity(ctx: &mut InsertionContext, route_idx: usize, act_idx: usize)
    requires
        old(ctx).wf(),
        route_idx < old(ctx).solution.routes@.len(),
        1 <= act_idx < old(ctx).solution.routes@[route_idx as int].route.tour.activities@.len(),
        old(ctx).solution.routes@[route_idx as int].route.tour.activities@[act_idx as int].job
            is Some,
    ensures
        final(ctx).wf(),
        final(ctx).solution.job_multiset() == old(ctx).solution.job_multiset(),
        final(ctx).problem == old(ctx).problem,
        final(ctx).solution.routes@.len() == old(ctx).solution.routes@.len(),
        forall|j: int|
            0 <= j < old(ctx).solution.routes@.len() && j != route_idx
                ==> final(ctx).solution.routes@[j] == old(ctx).solution.routes@[j],
        final(ctx).solution.routes@[route_idx as int].route.tour.activities@ == old(
            ctx,
        ).solution.routes@[route_idx as int].route.tour.activities@.remove(act_idx as int),
        final(ctx).solution.required@ == old(ctx).solution.required@.push(
            old(ctx).solution.routes@[route_idx as int].route.tour.activities@[act_idx as int].job->0,
        ),
        final(ctx).solution.unassigned == old(ctx).solution.unassigned,
        final(ctx).solution.ignored == old(ctx).solution.ignored,
        final(ctx).solution.locked == old(ctx).solution.locked,
{
    let ghost old_sol = old(ctx).solution;
    let ghost old_routes = old(ctx).solution.routes@;
    let rc = route_at_mut(&mut ctx.solution.routes, route_idx);
    let removed = rc.route.tour.activities.remove(act_idx);
    let id = match removed.job {
        Some(id) => id,
        None => 0,
    };
    ctx.solution.required.push(id);
    proof {
        assert(ctx.solution.routes@[route_idx as int].wf()) by {
            assert(old_routes[route_idx as int].wf());
            let so = old_routes[route_idx as int].route.tour.activities@;
            let sn = ctx.solution.routes@[route_idx as int].route.tour.activities@;
            assert forall|j: int| 0 <= j < sn.len() implies (#[trigger] sn[j]).wf() by {
                if j < act_idx {
                    assert(so[j].wf());
                } else {
                    assert(so[j + 1].wf());
                }
            }
        }
        assert forall|i: int| 0 <= i < ctx.solution.routes@.len() implies (
        #[trigger] ctx.solution.routes@[i]).wf() by {
            if i != route_idx {
                assert(old_routes[i].wf());
            }
        }
        lemma_ms_job_to_required(
            old_routes,
            ctx.solution.routes@,
            route_idx as int,
            act_idx as int,
            id,
            old_sol.required@,
            ctx.solution.required@,
        );
        lemma_job_multiset_parts(old_sol, ctx.solution);
    }
}

impl Ruin for RandomJobRemoval {
    fn ruin_solution(&self, insertion_ctx: InsertionContext, random: &mut Random) -> (r:
        InsertionContext) {
        let mut ctx = insertion_ctx;
        let ghost orig = insertion_ctx;
        let attempts = if self.limit.min < self.limit.max {
            random.next_in_range(self.limit.min, self.limit.max)
        } else {
            self.limit.min
        };
        proof {
            crate::solution::lemma_prefix_refl(orig.solution.required@);
        }
        let mut step: usize = 0;
        while step < attempts
            invariant
                ctx.wf(),
                ctx.solution.job_multiset() == orig.solution.job_multiset(),
                ctx.problem == orig.problem,
                ctx.solution.ignored == orig.solution.ignored,
                ctx.solution.locked == orig.solution.locked,
                ctx.solution.unassigned == orig.solution.unassigned,
                orig.solution.required@.is_prefix_of(ctx.solution.required@),
            decreases attempts - step,
        {
            step += 1;
            if ctx.solution.routes.len() == 0 {
                continue ;
            }
            let route_idx = random.next_in_range(0, ctx.solution.routes.len());
            let tour_len = ctx.solution.routes[route_idx].route.tour.activities.len();
            if tour_len <= 1 {
                continue ;
            }
            let act_idx = random.next_in_range(1, tour_len);
            if ctx.solution.routes[route_idx].route.tour.activities[act_idx].job.is_some() {
                let ghost req_before = ctx.solution.required@;
                remove_job_activity(&mut ctx, route_idx, act_idx);
                proof {
                    crate::solution::lemma_prefix_push(
                        orig.solution.required@,
                        req_before,
                        ctx.solution.required@.last(),
                    );
                }
            }
        }
        ctx
    }
}

/// Moves every job of one randomly chosen route back into the required set.
#[derive(Clone, Copy, PartialEq, Eq, Structural, Debug, Default)]
pub struct RandomRouteRemoval {
}

/// Moves every job of the route at `route_idx` back into the required
/// list, leaving the route with terminals only.
pub fn remove_all_route_jobs(ctx: &mut InsertionContext, route_idx: usize)
    requires
        old(ctx).wf(),
        route_idx < old(ctx).solution.routes@.len(),
    ensures
        final(ctx).wf(),
        final(ctx).solution.job_multiset() == old(ctx).solution.job_multiset(),
        final(ctx).problem == old(ctx).problem,
        final(ctx).solution.ignored == old(ctx).solution.ignored,
        final(ctx).solution.locked == old(ctx).solution.locked,
        final(ctx).solution.unassigned == old(ctx).solution.unassigned,
        old(ctx).solution.required@.is_prefix_of(final(ctx).solution.required@),
        final(ctx).solution.routes@.len() == old(ctx).solution.routes@.len(),
        final(ctx).solution.routes@[route_idx as int].route.tour.spec_job_count() == 0,
        forall|j: int|
            0 <= j < old(ctx).solution.routes@.len() && j != route_idx
                ==> final(ctx).solution.routes@[j] == old(ctx).solution.routes@[j],
{
    proof {
        crate::solution::lemma_prefix_refl(old(ctx).solution.required@);
    }
    let mut act_idx: usize = 1;
    while act_idx < ctx.solution.routes[route_idx].route.tour.activities.len()
        invariant
            ctx.wf(),
            ctx.solution.job_multiset() == old(ctx).solution.job_multiset(),
            ctx.problem == old(ctx).problem,
            ctx.solution.ignored == old(ctx).solution.ignored,
            ctx.solution.locked == old(ctx).solution.locked,
            ctx.solution.unassigned == old(ctx).solution.unassigned,
            old(ctx).solution.required@.is_prefix_of(ctx.solution.required@),
            ctx.solution.routes@.len() == old(ctx).solution.routes@.len(),
            route_idx < ctx.solution.routes@.len(),
            1 <= act_idx,
            forall|j: int|
                1 <= j < act_idx && j
                    < ctx.solution.routes@[route_idx as int].route.tour.activities@.len() ==> (
                #[trigger] ctx.solution.routes@[route_idx as int].route.tour.activities@[j]).job
                    is None,
            forall|j: int|
                0 <= j < old(ctx).solution.routes@.len() && j != route_idx
                    ==> ctx.solution.routes@[j] == old(ctx).solution.routes@[j],
        decreases ctx.solution.routes@[route_idx as int].route.tour.activities@.len() - act_idx,
    {
        if ctx.solution.routes[route_idx].route.tour.activities[act_idx].job.is_some() {
            let ghost req_before = ctx.solution.required@;
            remove_job_activity(ctx, route_idx, act_idx);
            proof {
                crate::solution::lemma_prefix_push(
                    old(ctx).solution.required@,
                    req_before,
                    ctx.solution.required@.last(),
                );
            }
        } else {
            act_idx += 1;
        }
    }
    proof {
        let s = ctx.solution.routes@[route_idx as int].route.tour.activities@;
        assert(ctx.solution.routes@[route_idx as int].wf());
        assert forall|j: int| 0 <= j < s.len() implies (#[trigger] s[j]).job is None by {
            if j == 0 {
            } else {
                assert(1 <= j < act_idx);
            }
        }
        crate::models::lemma_count_jobs_none(s);
    }
}

impl Ruin for RandomRouteRemoval {
    fn ruin_solution(&self, insertion_ctx: InsertionContext, random: &mut Random) -> (r:
        InsertionContext) {
        let mut ctx = insertion_ctx;
        if ctx.solution.routes.len() == 0 {
            proof {
                crate::solution::lemma_prefix_refl(ctx.solution.required@);
            }
            return ctx;
        }
        let route_idx = random.next_in_range(0, ctx.solution.routes.len());
        remove_all_route_jobs(&mut ctx, route_idx);
        ctx
    }
}

/// Removes a contiguous string of job activities from one randomly chosen
/// route: the string starts at a random position and runs until its drawn
/// length, the end of the tour or a terminal, whichever comes first, so its
/// length is bounded by the route's size.
#[derive(Clone, Copy, PartialEq, Eq, Structural, Debug)]
pub struct AdjustedStringRemoval {
    pub min_size: usize,
    pub max_size: usize,
}

impl Default for AdjustedStringRemoval {
    /// The default string bounds: one to ten activities.
    fn default() -> (r: AdjustedStringRemoval)
        ensures
            r == (AdjustedStringRemoval { min_size: 1, max_size: 10 }),
    {
        AdjustedStringRemoval { min_size: 1, max_size: 10 }
    }
}

impl Ruin for AdjustedStringRemoval {
    fn ruin_solution(&self, insertion_ctx: InsertionContext, random: &mut Random) -> (r:
        InsertionContext) {
        let mut ctx = insertion_ctx;
        let ghost orig = insertion_ctx;
        proof {
            crate::solution::lemma_prefix_refl(orig.solution.required@);
        }
        if ctx.solution.routes.len() == 0 {
            return ctx;
        }
        let route_idx = random.next_in_range(0, ctx.solution.routes.len());
        let tour_len = ctx.solution.routes[route_idx].route.tour.activities.len();
        if tour_len <= 1 {
            return ctx;
        }
        let span = if self.min_size < self.max_size {
            random.next_in_range(self.min_size, self.max_size)
        } else {
            self.min_size
        };
        let start = random.next_in_range(1, tour_len);
        let mut removed: usize = 0;
        while removed < span
            invariant
                ctx.wf(),
                ctx.solution.job_multiset() == orig.solution.job_multiset(),
                ctx.problem == orig.problem,
                ctx.solution.ignored == orig.solution.ignored,
                ctx.solution.locked == orig.solution.locked,
                ctx.solution.unassigned == orig.solution.unassigned,
                orig.solution.required@.is_prefix_of(ctx.solution.required@),
                route_idx < ctx.solution.routes@.len(),
                1 <= start,
            decreases span - removed,
        {
            if start >= ctx.solution.routes[route_idx].route.tour.activities.len() {
                break ;
            }
            if ctx.solution.routes[route_idx].route.tour.activities[start].job.is_none() {
                break ;
            }
            let ghost req_before = ctx.solution.required@;
            remove_job_activity(&mut ctx, route_idx, start);
            proof {
                crate::solution::lemma_prefix_push(
                    orig.solution.required@,
                    req_before,
                    ctx.solution.required@.last(),
                );
            }
            removed += 1;
        }
        ctx
    }
}

/// Finds the job activity closest to `seed_loc` by transport duration.
fn find_nearest_job(ctx: &InsertionContext, seed_loc: usize) -> (r: Option<(usize, usize)>)
    requires
        ctx.wf(),
    ensures
        match r {
            Some((route_idx, act_idx)) => {
                &&& route_idx < ctx.solution.routes@.len()
                &&& 1 <= act_idx
                    < ctx.solution.routes@[route_idx as int].route.tour.activities@.len()
                &&& ctx.solution.routes@[route_idx as int].route.tour.activities@[act_idx as int].job
                    is Some
            },
            None => true,
        },
{
    let mut best: Option<(usize, usize)> = None;
    let mut best_duration: i64 = 0;
    let mut r: usize = 0;
    while r < ctx.solution.routes.len()
        invariant
            ctx.wf(),
            0 <= r <= ctx.solution.routes@.len(),
            match best {
                Some((route_idx, act_idx)) => {
                    &&& route_idx < ctx.solution.routes@.len()
                    &&& 1 <= act_idx
                        < ctx.solution.routes@[route_idx as int].route.tour.activities@.len()
                    &&& ctx.solution.routes@[route_idx as int].route.tour.activities@[act_idx as int].job
                        is Some
                },
                None => true,
            },
        decreases ctx.solution.routes@.len() - r,
    {
        let profile = ctx.solution.routes[r].route.actor.profile;
        let len = ctx.solution.routes[r].route.tour.activities.len();
        let mut i: usize = 1;
        while i < len
            invariant
                ctx.wf(),
                r < ctx.solution.routes@.len(),
                len == ctx.solution.routes@[r as int].route.tour.activities@.len(),
                1 <= i,
                match best {
                    Some((route_idx, act_idx)) => {
                        &&& route_idx < ctx.solution.routes@.len()
                        &&& 1 <= act_idx
                            < ctx.solution.routes@[route_idx as int].route.tour.activities@.len()
                        &&& ctx.solution.routes@[route_idx as int].route.tour.activities@[act_idx as int].job
                            is Some
                    },
                    None => true,
                },
            decreases len - i,
        {
            let act = ctx.solution.routes[r].route.tour.activities[i];
            if act.job.is_some() {
                let duration = ctx.problem.transport.duration(
                    profile,
                    seed_loc,
                    act.place.location,
                    0,
                );
                let better = match best {
                    Some(_) => duration < best_duration,
                    None => true,
                };
                if better {
                    best = Some((r, i));
                    best_duration = duration;
                }
            }
            i += 1;
        }
        r += 1;
    }
    best
}

/// Removes the spatial neighbours of a randomly chosen seed activity, up to
/// the removal limit: repeatedly the job activity with the smallest
/// transport duration from the seed's location.
#[derive(Clone, Copy, PartialEq, Eq, Structural, Debug)]
pub struct NeighbourRemoval {
    pub limit: JobRemovalLimit,
}

impl NeighbourRemoval {
    /// Creates the operator with the given limit.
    pub fn new(limit: JobRemovalLimit) -> (r: NeighbourRemoval)
        ensures
            r.limit == limit,
    {
        NeighbourRemoval { limit }
    }
}

impl Default for NeighbourRemoval {
    /// The operator with the default removal limit.
    fn default() -> (r: NeighbourRemoval)
        ensures
            r.limit == (JobRemovalLimit { min: 2, max: 8, ratio: 1000u32 }),
    {
        NeighbourRemoval { limit: JobRemovalLimit::default() }
    }
}

impl Ruin for NeighbourRemoval {
    fn ruin_solution(&self, insertion_ctx: InsertionContext, random: &mut Random) -> (r:
        InsertionContext) {
        let mut ctx = insertion_ctx;
        let ghost orig = insertion_ctx;
        proof {
            crate::solution::lemma_prefix_refl(orig.solution.required@);
        }
        if ctx.solution.routes.len() == 0 {
            return ctx;
        }
        let seed_route = random.next_in_range(0, ctx.solution.routes.len());
        let seed_tour_len = ctx.solution.routes[seed_route].route.tour.activities.len();
        let seed_idx = if seed_tour_len > 1 {
            random.next_in_range(1, seed_tour_len)
        } else {
            0
        };
        let seed_loc =
            ctx.solution.routes[seed_route].route.tour.activities[seed_idx].place.location;
        let count = if self.limit.min < self.limit.max {
            random.next_in_range(self.limit.min, self.limit.max)
        } else {
            self.limit.min
        };
        let mut step: usize = 0;
        while step < count
            invariant
                ctx.wf(),
                ctx.solution.job_multiset() == orig.solution.job_multiset(),
                ctx.problem == orig.problem,
                ctx.solution.ignored == orig.solution.ignored,
                ctx.solution.locked == orig.solution.locked,
                ctx.solution.unassigned == orig.solution.unassigned,
                orig.solution.required@.is_prefix_of(ctx.solution.required@),
            decreases count - step,
        {
            step += 1;
            match find_nearest_job(&ctx, seed_loc) {
                Some((route_idx, act_idx)) => {
                    let ghost req_before = ctx.solution.required@;
                    remove_job_activity(&mut ctx, route_idx, act_idx);
                    proof {
                        crate::solution::lemma_prefix_push(
                            orig.solution.required@,
                            req_before,
                            ctx.solution.required@.last(),
                        );
                    }
                },
                None => {
                    break ;
                },
            }
        }
        ctx
    }
}

/// Finds the job activity whose removal saves the most transport cost: the
/// cost of its two legs, less the cost of bridging its neighbours.
fn find_worst_job(ctx: &InsertionContext) -> (r: Option<(usize, usize)>)
    requires
        ctx.wf(),
    ensures
        match r {
            Some((route_idx, act_idx)) => {
                &&& route_idx < ctx.solution.routes@.len()
                &&& 1 <= act_idx
                    < ctx.solution.routes@[route_idx as int].route.tour.activities@.len()
                &&& ctx.solution.routes@[route_idx as int].route.tour.activities@[act_idx as int].job
                    is Some
            },
            None => true,
        },
{
    let mut best: Option<(usize, usize)> = None;
    let mut best_savings: i64 = 0;
    let mut r: usize = 0;
    while r < ctx.solution.routes.len()
        invariant
            ctx.wf(),
            0 <= r <= ctx.solution.routes@.len(),
            match best {
                Some((route_idx, act_idx)) => {
                    &&& route_idx < ctx.solution.routes@.len()
                    &&& 1 <= act_idx
                        < ctx.solution.routes@[route_idx as int].route.tour.activities@.len()
                    &&& ctx.solution.routes@[route_idx as int].route.tour.activities@[act_idx as int].job
                        is Some
                },
                None => true,
            },
        decreases ctx.solution.routes@.len() - r,
    {
        let profile = ctx.solution.routes[r].route.actor.profile;
        let len = ctx.solution.routes[r].route.tour.activities.len();
        let mut i: usize = 1;
        while i < len
            invariant
                ctx.wf(),
                r < ctx.solution.routes@.len(),
                len == ctx.solution.routes@[r as int].route.tour.activities@.len(),
                1 <= i,
                match best {
                    Some((route_idx, act_idx)) => {
                        &&& route_idx < ctx.solution.routes@.len()
                        &&& 1 <= act_idx
                            < ctx.solution.routes@[route_idx as int].route.tour.activities@.len()
                        &&& ctx.solution.routes@[route_idx as int].route.tour.activities@[act_idx as int].job
                            is Some
                    },
                    None => true,
                },
            decreases len - i,
        {
            let act = ctx.solution.routes[r].route.tour.activities[i];
            if act.job.is_some() {
                let prev = ctx.solution.routes[r].route.tour.activities[i - 1];
                let cost_in = ctx.problem.transport.cost(
                    profile,
                    prev.place.location,
                    act.place.location,
                    0,
                );
                let (cost_out, cost_bridge) = if i + 1 < len {
                    let next = ctx.solution.routes[r].route.tour.activities[i + 1];
                    (
                        ctx.problem.transport.cost(
                            profile,
                            act.place.location,
                            next.place.location,
                            0,
                        ),
                        ctx.problem.transport.cost(
                            profile,
                            prev.place.location,
                            next.place.location,
                            0,
                        ),
                    )
                } else {
                    (0, 0)
                };
                let savings = cost_in + cost_out - cost_bridge;
                let better = match best {
                    Some(_) => savings > best_savings,
                    None => true,
                };
                if better {
                    best = Some((r, i));
                    best_savings = savings;
                }
            }
            i += 1;
        }
        r += 1;
    }
    best
}

/// Removes the jobs contributing the most transport cost, one at a time.
#[derive(Clone, Copy, PartialEq, Eq, Structural, Debug)]
pub struct WorstJobRemoval {
    pub limit: JobRemovalLimit,
}

impl Default for WorstJobRemoval {
    /// The operator with the default removal limit.
    fn default() -> (r: WorstJobRemoval)
        ensures
            r.limit == (JobRemovalLimit { min: 2, max: 8, ratio: 1000u32 }),
    {
        WorstJobRemoval { limit: JobRemovalLimit::default() }
    }
}

impl Ruin for WorstJobRemoval {
    fn ruin_solution(&self, insertion_ctx: InsertionContext, random: &mut Random) -> (r:
        InsertionContext) {
        let mut ctx = insertion_ctx;
        let ghost orig = insertion_ctx;
        proof {
            crate::solution::lemma_prefix_refl(orig.solution.required@);
        }
        let count = if self.limit.min < self.limit.max {
            random.next_in_range(self.limit.min, self.limit.max)
        } else {
            self.limit.min
        };
        let mut step: usize = 0;
        while step < count
            invariant
                ctx.wf(),
                ctx.solution.job_multiset() == orig.solution.job_multiset(),
                ctx.problem == orig.problem,
                ctx.solution.ignored == orig.solution.ignored,
                ctx.solution.locked == orig.solution.locked,
                ctx.solution.unassigned == orig.solution.unassigned,
                orig.solution.required@.is_prefix_of(ctx.solution.required@),
            decreases count - step,
        {
            step += 1;
            match find_worst_job(&ctx) {
                Some((route_idx, act_idx)) => {
                    let ghost req_before = ctx.solution.required@;
                    remove_job_activity(&mut ctx, route_idx, act_idx);
                    proof {
                        crate::solution::lemma_prefix_push(
                            orig.solution.required@,
                            req_before,
                            ctx.solution.required@.last(),
                        );
                    }
                },
                None => {
                    break ;
                },
            }
        }
        ctx
    }
}

/// Removes a whole spatial cluster of jobs: every job activity within a
/// drawn transport-duration radius of a randomly chosen seed location.
#[derive(Clone, Copy, PartialEq, Eq, Structural, Debug, Default)]
pub struct ClusterRemoval {
}

impl ClusterRemoval {
    /// Creates the operator with its default parameters.
    pub fn new_with_defaults() -> (r: ClusterRemoval)
        ensures
            r == (ClusterRemoval {  }),
    {
        ClusterRemoval {  }
    }
}

impl Ruin for ClusterRemoval {
    fn ruin_solution(&self, insertion_ctx: InsertionContext, random: &mut Random) -> (r:
        InsertionContext) {
        let mut ctx = insertion_ctx;
        let ghost orig = insertion_ctx;
        proof {
            crate::solution::lemma_prefix_refl(orig.solution.required@);
        }
        if ctx.solution.routes.len() == 0 {
            return ctx;
        }
        let seed_route = random.next_in_range(0, ctx.solution.routes.len());
        let seed_tour_len = ctx.solution.routes[seed_route].route.tour.activities.len();
        let seed_idx = if seed_tour_len > 1 {
            random.next_in_range(1, seed_tour_len)
        } else {
            0
        };
        let seed_loc =
            ctx.solution.routes[seed_route].route.tour.activities[seed_idx].place.location;
        let radius = random.next_in_range(1, 0x100) as i64;
        let ghost n_routes = ctx.solution.routes@.len();
        let mut r: usize = 0;
        while r < ctx.solution.routes.len()
            invariant
                ctx.wf(),
                ctx.solution.job_multiset() == orig.solution.job_multiset(),
                ctx.problem == orig.problem,
                ctx.solution.ignored == orig.solution.ignored,
                ctx.solution.locked == orig.solution.locked,
                ctx.solution.unassigned == orig.solution.unassigned,
                orig.solution.required@.is_prefix_of(ctx.solution.required@),
                ctx.solution.routes@.len() == n_routes,
                0 <= r,
            decreases n_routes - r,
        {
            let profile = ctx.solution.routes[r].route.actor.profile;
            let mut i: usize = 1;
            while i < ctx.solution.routes[r].route.tour.activities.len()
                invariant
                    ctx.wf(),
                    ctx.solution.job_multiset() == orig.solution.job_multiset(),
                    ctx.problem == orig.problem,
                    ctx.solution.ignored == orig.solution.ignored,
                    ctx.solution.locked == orig.solution.locked,
                    ctx.solution.unassigned == orig.solution.unassigned,
                    orig.solution.required@.is_prefix_of(ctx.solution.required@),
                    ctx.solution.routes@.len() == n_routes,
                    r < ctx.solution.routes@.len(),
                    1 <= i,
                decreases ctx.solution.routes@[r as int].route.tour.activities@.len() - i,
            {
                let act = ctx.solution.routes[r].route.tour.activities[i];
                let in_cluster = act.job.is_some() && ctx.problem.transport.duration(
                    profile,
                    seed_loc,
                    act.place.location,
                    0,
                ) <= radius;
                if in_cluster {
                    let ghost req_before = ctx.solution.required@;
                    remove_job_activity(&mut ctx, r, i);
                    proof {
                        crate::solution::lemma_prefix_push(
                            orig.solution.required@,
                            req_before,
                            ctx.solution.required@.last(),
                        );
                    }
                } else {
                    i += 1;
                }
            }
            r += 1;
        }
        ctx
    }
}

/// Picks an index of `items` with probability proportional to the weights.
fn pick_by_weight<X>(items: &Vec<(X, u32)>, random: &mut Random) -> (r: Option<usize>)
    ensures
        match r {
            Some(i) => i < items@.len(),
            None => true,
        },
{
    let mut total: u128 = 0;
    let mut i: usize = 0;
    while i < items.len()
        invariant
            0 <= i <= items@.len(),
            total <= i * 0x1_0000_0000,
        decreases items@.len() - i,
    {
        total = total + items[i].1 as u128;
        i += 1;
    }
    if total == 0 {
        return None;
    }
    let draw = random.next_u64() as u128 % total;
    let mut acc: u128 = 0;
    let mut j: usize = 0;
    while j < items.len()
        invariant
            0 <= j <= items@.len(),
            acc <= j * 0x1_0000_0000,
        decreases items@.len() - j,
    {
        let next = acc + items[j].1 as u128;
        if draw < next {
            return Some(j);
        }
        acc = next;
        j += 1;
    }
    None
}

/// Groups of weighted ruin operators: one group is chosen by weight, then
/// every operator of the group runs with its own probability.
pub struct CompositeRuin<R> {
    pub groups: Vec<(Vec<(R, u32)>, u32)>,
}

impl<R> CompositeRuin<R> {
    /// Creates the composite from its groups.
    pub fn new(groups: Vec<(Vec<(R, u32)>, u32)>) -> (r: CompositeRuin<R>)
        ensures
            r.groups == groups,
    {
        CompositeRuin { groups }
    }
}

impl<R: Ruin> Ruin for CompositeRuin<R> {
    fn ruin_solution(&self, insertion_ctx: InsertionContext, random: &mut Random) -> (r:
        InsertionContext) {
        let mut ctx = insertion_ctx;
        let ghost orig = insertion_ctx;
        proof {
            crate::solution::lemma_prefix_refl(orig.solution.required@);
        }
        let picked = pick_by_weight(&self.groups, random);
        if let Some(g) = picked {
            let group = &self.groups[g].0;
            let mut i: usize = 0;
            while i < group.len()
                invariant
                    ctx.wf(),
                    ctx.solution.job_multiset() == orig.solution.job_multiset(),
                    ctx.problem == orig.problem,
                    ctx.solution.ignored == orig.solution.ignored,
                    ctx.solution.locked == orig.solution.locked,
                    ctx.solution.unassigned == orig.solution.unassigned,
                    orig.solution.required@.is_prefix_of(ctx.solution.required@),
                    group == &self.groups@[g as int].0,
                decreases group@.len() - i,
            {
                if random.is_hit(group[i].1) {
                    let ghost req_before = ctx.solution.required@;
                    ctx = group[i].0.ruin_solution(ctx, random);
                    proof {
                        crate::solution::lemma_prefix_trans(
                            orig.solution.required@,
                            req_before,
                            ctx.solution.required@,
                        );
                    }
                }
                i += 1;
            }
        }
        ctx
    }
}

/// Weighted recreate strategies: one is sampled per invocation.
pub struct CompositeRecreate<C> {
    pub recreates: Vec<(C, u32)>,
}

impl<C> CompositeRecreate<C> {
    /// Creates the composite from its weighted strategies.
    pub fn new(recreates: Vec<(C, u32)>) -> (r: CompositeRecreate<C>)
        ensures
            r.recreates == recreates,
    {
        CompositeRecreate { recreates }
    }
}

impl<C: Recreate> Recreate for CompositeRecreate<C> {
    fn run(&self, insertion_ctx: InsertionContext, random: &mut Random) -> (r: InsertionContext) {
        let picked = pick_by_weight(&self.recreates, random);
        match picked {
            Some(i) => self.recreates[i].0.run(insertion_ctx, random),
            None => {
                let cheapest = RecreateWithCheapest {  };
                cheapest.run(insertion_ctx, random)
            },
        }
    }
}

/// Inserts every required job at its globally cheapest feasible position.
#[derive(Clone, Copy, PartialEq, Eq, Structural, Debug, Default)]
pub struct RecreateWithCheapest {
}

/// The selection rules the recreate strategies differ in.
enum RecreateVariant {
    Cheapest,
    SkipBest(usize, usize),
    Regret(usize, usize),
    Perturbation,
    Gaps,
    Blinks,
    Farthest,
    NearestNeighbor,
}

/// The chance, in basis points, that a blink skips a candidate.
pub const BLINK_PROBABILITY: u32 = 100;

/// Whether a candidate entry describes a real position of the context: an
/// existing route with insertion capacity and a position inside it.
pub open spec fn candidate_valid(ctx: InsertionContext, c: (usize, usize, Cost)) -> bool {
    &&& c.0 < ctx.solution.routes@.len()
    &&& ctx.solution.routes@[c.0 as int].route.tour.activities@.len() < MAX_ACTIVITIES
    &&& c.1 < ctx.solution.routes@[c.0 as int].route.tour.activities@.len()
}

/// The best admissible position of every route with capacity: one entry per
/// such route, carrying a position the hard timing constraint accepts and
/// its exact estimated cost; a route with capacity and an admissible
/// position in scan range is never left out.
pub fn collect_candidates(ctx: &InsertionContext, target: &Activity) -> (r: Vec<
    (usize, usize, Cost),
>)
    requires
        ctx.wf(),
        target.place.wf(),
    ensures
        forall|k: int|
            0 <= k < r@.len() ==> candidate_valid(*ctx, #[trigger] r@[k]) && position_verdict(
                &ctx.problem.transport,
                &ctx.problem.activity,
                ctx.solution.routes@[r@[k].0 as int],
                *target,
                r@[k].1 as int,
            ) is None && r@[k].2 == position_cost(
                &ctx.problem.transport,
                &ctx.problem.activity,
                ctx.solution.routes@[r@[k].0 as int],
                *target,
                r@[k].1 as int,
            ),
        forall|rix: int|
            0 <= rix < ctx.solution.routes@.len()
                && (#[trigger] ctx.solution.routes@[rix]).route.tour.activities@.len()
                < MAX_ACTIVITIES && (exists|p: int|
                0 <= p < scan_end(
                    &ctx.problem.transport,
                    &ctx.problem.activity,
                    ctx.solution.routes@[rix],
                    *target,
                    last_candidate(ctx.solution.routes@[rix].route.tour.activities@),
                    0,
                ) && (#[trigger] position_verdict(
                    &ctx.problem.transport,
                    &ctx.problem.activity,
                    ctx.solution.routes@[rix],
                    *target,
                    p,
                )) is None) ==> exists|k: int| 0 <= k < r@.len() && (#[trigger] r@[k]).0 == rix,
{
    let mut r: Vec<(usize, usize, Cost)> = Vec::new();
    let mut rix: usize = 0;
    while rix < ctx.solution.routes.len()
        invariant
            ctx.wf(),
            target.place.wf(),
            0 <= rix <= ctx.solution.routes@.len(),
            forall|k: int|
                0 <= k < r@.len() ==> candidate_valid(*ctx, #[trigger] r@[k]) && position_verdict(
                    &ctx.problem.transport,
                    &ctx.problem.activity,
                    ctx.solution.routes@[r@[k].0 as int],
                    *target,
                    r@[k].1 as int,
                ) is None && r@[k].2 == position_cost(
                    &ctx.problem.transport,
                    &ctx.problem.activity,
                    ctx.solution.routes@[r@[k].0 as int],
                    *target,
                    r@[k].1 as int,
                ),
            forall|rix2: int|
                0 <= rix2 < rix && (
                #[trigger] ctx.solution.routes@[rix2]).route.tour.activities@.len()
                    < MAX_ACTIVITIES && (exists|p: int|
                    0 <= p < scan_end(
                        &ctx.problem.transport,
                        &ctx.problem.activity,
                        ctx.solution.routes@[rix2],
                        *target,
                        last_candidate(ctx.solution.routes@[rix2].route.tour.activities@),
                        0,
                    ) && (#[trigger] position_verdict(
                        &ctx.problem.transport,
                        &ctx.problem.activity,
                        ctx.solution.routes@[rix2],
                        *target,
                        p,
                    )) is None) ==> exists|k: int| 0 <= k < r@.len() && (#[trigger] r@[k]).0 == rix2,
        decreases ctx.solution.routes@.len() - rix,
    {
        let ghost r_before = r@;
        let rc = &ctx.solution.routes[rix];
        if rc.route.tour.activities.len() < MAX_ACTIVITIES {
            let found = best_position_in_route(
                &ctx.problem.transport,
                &ctx.problem.activity,
                rc,
                target,
            );
            if let Some((prev_idx, cost)) = found {
                r.push((rix, prev_idx, cost));
                proof {
                    assert(r@[r@.len() - 1].0 == rix);
                }
            }
        }
        proof {
            assert forall|k: int| 0 <= k < r_before.len() implies r@[k] == r_before[k] by {}
        }
        rix += 1;
    }
    r
}

/// The index of the first cheapest candidate.
fn pick_min_cost(cands: &Vec<(usize, usize, Cost)>) -> (r: usize)
    requires
        cands@.len() > 0,
    ensures
        r < cands@.len(),
{
    let mut best: usize = 0;
    let mut i: usize = 1;
    while i < cands.len()
        invariant
            best < i <= cands@.len(),
            cands@.len() > 0,
        decreases cands@.len() - i,
    {
        if cands[i].2 < cands[best].2 {
            best = i;
        }
        i += 1;
    }
    best
}

/// The candidate of the given rank in ascending cost order (ties by list
/// position), found by repeated selection.
fn pick_rank(cands: &Vec<(usize, usize, Cost)>, rank: usize) -> (r: usize)
    requires
        cands@.len() > 0,
        rank < cands@.len(),
    ensures
        r < cands@.len(),
{
    let mut used: Vec<bool> = Vec::new();
    let mut f: usize = 0;
    while f < cands.len()
        invariant
            used@.len() == f <= cands@.len(),
        decreases cands@.len() - f,
    {
        used.push(false);
        f += 1;
    }
    let mut chosen: usize = 0;
    let mut round: usize = 0;
    while round <= rank
        invariant
            used@.len() == cands@.len(),
            cands@.len() > 0,
            rank < cands@.len(),
            round <= rank + 1,
            chosen < cands@.len(),
        decreases rank + 1 - round,
    {
        let mut found: Option<usize> = None;
        let mut j: usize = 0;
        while j < cands.len()
            invariant
                used@.len() == cands@.len(),
                0 <= j <= cands@.len(),
                match found {
                    Some(b) => b < cands@.len(),
                    None => true,
                },
            decreases cands@.len() - j,
        {
            if !used[j] {
                let better = match found {
                    Some(b) => cands[j].2 < cands[b].2,
                    None => true,
                };
                if better {
                    found = Some(j);
                }
            }
            j += 1;
        }
        match found {
            Some(b) => {
                chosen = b;
                used.set(b, true);
            },
            None => {
                break ;
            },
        }
        round += 1;
    }
    chosen
}

/// The index of the cheapest candidate after adding uniform noise to each
/// cost.
fn pick_perturbed(cands: &Vec<(usize, usize, Cost)>, random: &mut Random) -> (r: usize)
    requires
        cands@.len() > 0,
    ensures
        r < cands@.len(),
{
    let mut best: usize = 0;
    let first_noise = random.next_in_range(0, 0x400) as i64;
    let mut best_key: i128 = cands[0].2 as i128 + first_noise as i128;
    let mut i: usize = 1;
    while i < cands.len()
        invariant
            best < cands@.len(),
            1 <= i <= cands@.len(),
            cands@.len() > 0,
        decreases cands@.len() - i,
    {
        let noise = random.next_in_range(0, 0x400) as i64;
        let key = cands[i].2 as i128 + noise as i128;
        if key < best_key {
            best = i;
            best_key = key;
        }
        i += 1;
    }
    best
}

/// The cheapest candidate that does not blink away; when every candidate
/// blinks, the cheapest overall.
fn pick_blinks(cands: &Vec<(usize, usize, Cost)>, random: &mut Random) -> (r: usize)
    requires
        cands@.len() > 0,
    ensures
        r < cands@.len(),
{
    let mut overall: usize = 0;
    let mut kept: Option<usize> = None;
    let mut i: usize = 0;
    while i < cands.len()
        invariant
            overall < cands@.len(),
            0 <= i <= cands@.len(),
            cands@.len() > 0,
            match kept {
                Some(b) => b < cands@.len(),
                None => true,
            },
        decreases cands@.len() - i,
    {
        if cands[i].2 < cands[overall].2 {
            overall = i;
        }
        if !random.is_hit(BLINK_PROBABILITY) {
            let better = match kept {
                Some(b) => cands[i].2 < cands[b].2,
                None => true,
            };
            if better {
                kept = Some(i);
            }
        }
        i += 1;
    }
    match kept {
        Some(b) => b,
        None => overall,
    }
}

/// The candidate in the route with the most cached waiting at its first
/// stop: the longest temporal gap to absorb.
fn pick_gaps(ctx: &InsertionContext, cands: &Vec<(usize, usize, Cost)>) -> (r: usize)
    requires
        cands@.len() > 0,
        forall|k: int| 0 <= k < cands@.len() ==> candidate_valid(*ctx, #[trigger] cands@[k]),
    ensures
        r < cands@.len(),
{
    let mut best: usize = 0;
    let mut best_waiting: i64 = 0;
    let mut i: usize = 0;
    while i < cands.len()
        invariant
            best < cands@.len(),
            0 <= i <= cands@.len(),
            cands@.len() > 0,
            forall|k: int| 0 <= k < cands@.len() ==> candidate_valid(*ctx, #[trigger] cands@[k]),
        decreases cands@.len() - i,
    {
        let route_idx = cands[i].0;
        let waiting = match ctx.solution.routes[route_idx].state.get_activity_state(
            WAITING_KEY,
            1,
        ) {
            Some(w) => w,
            None => 0,
        };
        if i == 0 || waiting > best_waiting {
            best = i;
            best_waiting = waiting;
        }
        i += 1;
    }
    best
}

/// The candidate whose predecessor is closest, by transport duration, to
/// the most recently placed location.
fn pick_nearest(
    ctx: &InsertionContext,
    cands: &Vec<(usize, usize, Cost)>,
    last_loc: usize,
) -> (r: usize)
    requires
        ctx.wf(),
        cands@.len() > 0,
        forall|k: int| 0 <= k < cands@.len() ==> candidate_valid(*ctx, #[trigger] cands@[k]),
    ensures
        r < cands@.len(),
{
    let mut best: usize = 0;
    let mut best_duration: i64 = 0;
    let mut i: usize = 0;
    while i < cands.len()
        invariant
            ctx.wf(),
            best < cands@.len(),
            0 <= i <= cands@.len(),
            cands@.len() > 0,
            forall|k: int| 0 <= k < cands@.len() ==> candidate_valid(*ctx, #[trigger] cands@[k]),
        decreases cands@.len() - i,
    {
        let (route_idx, prev_idx, _) = cands[i];
        let rc = &ctx.solution.routes[route_idx];
        let duration = ctx.problem.transport.duration(
            rc.route.actor.profile,
            last_loc,
            rc.route.tour.activities[prev_idx].place.location,
            0,
        );
        if i == 0 || duration < best_duration {
            best = i;
            best_duration = duration;
        }
        i += 1;
    }
    best
}

/// Moves the required job at `req_idx` into the unassigned map with the
/// recreate violation code; everything else stays as it was.
pub fn unassign_required(ctx: &mut InsertionContext, req_idx: usize)
    requires
        old(ctx).wf(),
        req_idx < old(ctx).solution.required@.len(),
    ensures
        final(ctx).wf(),
        final(ctx).solution.job_multiset() == old(ctx).solution.job_multiset(),
        final(ctx).problem == old(ctx).problem,
        final(ctx).solution.routes == old(ctx).solution.routes,
        final(ctx).solution.ignored == old(ctx).solution.ignored,
        final(ctx).solution.locked == old(ctx).solution.locked,
        final(ctx).solution.required@ == old(ctx).solution.required@.remove(req_idx as int),
        final(ctx).solution.unassigned@ == old(ctx).solution.unassigned@.push(
            (old(ctx).solution.required@[req_idx as int], UNASSIGNED_CODE),
        ),
{
    let ghost old_sol = ctx.solution;
    let removed = ctx.solution.required.remove(req_idx);
    ctx.solution.unassigned.push((removed, UNASSIGNED_CODE));
    proof {
        lemma_ms_required_to_unassigned(
            old_sol.required@,
            ctx.solution.required@,
            req_idx as int,
            removed,
            UNASSIGNED_CODE,
            old_sol.unassigned@,
            ctx.solution.unassigned@,
        );
        lemma_job_multiset_parts_unassigned(old_sol, ctx.solution);
    }
}

/// The index of the required job the variant chooses next.
fn pick_required_job(
    variant: &RecreateVariant,
    ctx: &InsertionContext,
    random: &mut Random,
) -> (r: usize)
    requires
        ctx.wf(),
        ctx.solution.required@.len() > 0,
    ensures
        r < ctx.solution.required@.len(),
{
    let big: i128 = 0x7FFF_FFFF_FFFF_FFFF;
    match variant {
        RecreateVariant::Regret(min, max) => {
            let k = if *min < *max {
                random.next_in_range(*min, *max)
            } else {
                *min
            };
            let mut best: usize = 0;
            let mut best_regret: i128 = -big;
            let mut j: usize = 0;
            while j < ctx.solution.required.len()
                invariant
                    ctx.wf(),
                    best < ctx.solution.required@.len(),
                    0 <= j <= ctx.solution.required@.len(),
                    ctx.solution.required@.len() > 0,
                decreases ctx.solution.required@.len() - j,
            {
                let id = ctx.solution.required[j];
                let regret = match find_job_place(&ctx.problem.jobs, id) {
                    Some(place) => {
                        proof {
                            let w = choose|w: int|
                                0 <= w < ctx.problem.jobs@.len() && (
                                #[trigger] ctx.problem.jobs@[w]).id == id
                                    && ctx.problem.jobs@[w].place == place;
                            assert(ctx.problem.jobs@[w].wf());
                        }
                        let target = Activity::new_for_job(place, id);
                        let cands = collect_candidates(ctx, &target);
                        if cands.len() == 0 {
                            big
                        } else {
                            let cheapest = cands[pick_min_cost(&cands)].2;
                            let rank = if k >= 1 && k - 1 < cands.len() {
                                k - 1
                            } else {
                                cands.len() - 1
                            };
                            let kth = cands[pick_rank(&cands, rank)].2;
                            kth as i128 - cheapest as i128
                        }
                    },
                    None => big,
                };
                if j == 0 || regret > best_regret {
                    best = j;
                    best_regret = regret;
                }
                j += 1;
            }
            best
        },
        RecreateVariant::Farthest => {
            let mut best: usize = 0;
            let mut best_cost: i128 = -big;
            let mut j: usize = 0;
            while j < ctx.solution.required.len()
                invariant
                    ctx.wf(),
                    best < ctx.solution.required@.len(),
                    0 <= j <= ctx.solution.required@.len(),
                    ctx.solution.required@.len() > 0,
                decreases ctx.solution.required@.len() - j,
            {
                let id = ctx.solution.required[j];
                let cheapest = match find_job_place(&ctx.problem.jobs, id) {
                    Some(place) => {
                        proof {
                            let w = choose|w: int|
                                0 <= w < ctx.problem.jobs@.len() && (
                                #[trigger] ctx.problem.jobs@[w]).id == id
                                    && ctx.problem.jobs@[w].place == place;
                            assert(ctx.problem.jobs@[w].wf());
                        }
                        let target = Activity::new_for_job(place, id);
                        let cands = collect_candidates(ctx, &target);
                        if cands.len() == 0 {
                            big
                        } else {
                            cands[pick_min_cost(&cands)].2 as i128
                        }
                    },
                    None => big,
                };
                if j == 0 || cheapest > best_cost {
                    best = j;
                    best_cost = cheapest;
                }
                j += 1;
            }
            best
        },
        _ => 0,
    }
}

/// The shared recreate engine: while jobs are required, the variant picks a
/// job and one of its admissible candidate positions; the job is inserted
/// there, or recorded unassigned when its place is unknown or no route with
/// capacity admits it.
fn run_recreate(
    variant: &RecreateVariant,
    insertion_ctx: InsertionContext,
    random: &mut Random,
) -> (r: InsertionContext)
    requires
        insertion_ctx.wf(),
    ensures
        r.wf(),
        r.solution.job_multiset() == insertion_ctx.solution.job_multiset(),
        r.problem == insertion_ctx.problem,
        r.solution.required@.len() == 0,
{
    let mut ctx = insertion_ctx;
    let ghost orig = insertion_ctx;
    let mut last_loc: Option<usize> = None;
    while ctx.solution.required.len() > 0
        invariant
            ctx.wf(),
            ctx.solution.job_multiset() == orig.solution.job_multiset(),
            ctx.problem == orig.problem,
        decreases ctx.solution.required@.len(),
    {
        let req_idx = pick_required_job(variant, &ctx, random);
        let id = ctx.solution.required[req_idx];
        match find_job_place(&ctx.problem.jobs, id) {
            None => {
                unassign_required(&mut ctx, req_idx);
            },
            Some(place) => {
                proof {
                    let w = choose|w: int|
                        0 <= w < ctx.problem.jobs@.len() && (#[trigger] ctx.problem.jobs@[w]).id
                            == id && ctx.problem.jobs@[w].place == place;
                    assert(ctx.problem.jobs@[w].wf());
                }
                let target = Activity::new_for_job(place, id);
                let cands = collect_candidates(&ctx, &target);
                if cands.len() == 0 {
                    unassign_required(&mut ctx, req_idx);
                } else {
                    let pick = match variant {
                        RecreateVariant::SkipBest(min, max) => {
                            let drawn = if *min < *max {
                                random.next_in_range(*min, *max)
                            } else {
                                *min
                            };
                            let rank = if drawn >= 1 && drawn - 1 < cands.len() {
                                drawn - 1
                            } else {
                                cands.len() - 1
                            };
                            pick_rank(&cands, rank)
                        },
                        RecreateVariant::Perturbation => pick_perturbed(&cands, random),
                        RecreateVariant::Gaps => pick_gaps(&ctx, &cands),
                        RecreateVariant::Blinks => pick_blinks(&cands, random),
                        RecreateVariant::NearestNeighbor => {
                            match last_loc {
                                Some(loc) => pick_nearest(&ctx, &cands, loc),
                                None => pick_min_cost(&cands),
                            }
                        },
                        _ => pick_min_cost(&cands),
                    };
                    let (best_route, best_prev, _) = cands[pick];
                    commit_insertion(&mut ctx, best_route, best_prev + 1, target, id, req_idx);
                    last_loc = Some(place.location);
                }
            },
        }
    }
    ctx
}

impl Recreate for RecreateWithCheapest {
    fn run(&self, insertion_ctx: InsertionContext, random: &mut Random) -> (r: InsertionContext) {
        run_recreate(&RecreateVariant::Cheapest, insertion_ctx, random)
    }
}

/// Like cheapest insertion, but the position of a drawn rank among the
/// candidates is taken, skipping that many better ones.
#[derive(Clone, Copy, PartialEq, Eq, Structural, Debug)]
pub struct RecreateWithSkipBest {
    pub min: usize,
    pub max: usize,
}

impl RecreateWithSkipBest {
    /// Creates the strategy with its rank range.
    pub fn new(min: usize, max: usize) -> (r: RecreateWithSkipBest)
        ensures
            r == (RecreateWithSkipBest { min, max }),
    {
        RecreateWithSkipBest { min, max }
    }
}

impl Recreate for RecreateWithSkipBest {
    fn run(&self, insertion_ctx: InsertionContext, random: &mut Random) -> (r: InsertionContext) {
        run_recreate(&RecreateVariant::SkipBest(self.min, self.max), insertion_ctx, random)
    }
}

/// Picks the job with the largest gap between its cheapest and its k-th
/// cheapest candidate, and inserts it at its cheapest one.
#[derive(Clone, Copy, PartialEq, Eq, Structural, Debug)]
pub struct RecreateWithRegret {
    pub min: usize,
    pub max: usize,
}

impl RecreateWithRegret {
    /// Creates the strategy with its rank range.
    pub fn new(min: usize, max: usize) -> (r: RecreateWithRegret)
        ensures
            r == (RecreateWithRegret { min, max }),
    {
        RecreateWithRegret { min, max }
    }
}

impl Recreate for RecreateWithRegret {
    fn run(&self, insertion_ctx: InsertionContext, random: &mut Random) -> (r: InsertionContext) {
        run_recreate(&RecreateVariant::Regret(self.min, self.max), insertion_ctx, random)
    }
}

/// Cheapest insertion over costs perturbed by uniform noise.
#[derive(Clone, Copy, PartialEq, Eq, Structural, Debug, Default)]
pub struct RecreateWithPerturbation {
}

impl Recreate for RecreateWithPerturbation {
    fn run(&self, insertion_ctx: InsertionContext, random: &mut Random) -> (r: InsertionContext) {
        run_recreate(&RecreateVariant::Perturbation, insertion_ctx, random)
    }
}

/// Targets the route with the longest cached waiting gap.
#[derive(Clone, Copy, PartialEq, Eq, Structural, Debug, Default)]
pub struct RecreateWithGaps {
}

impl Recreate for RecreateWithGaps {
    fn run(&self, insertion_ctx: InsertionContext, random: &mut Random) -> (r: InsertionContext) {
        run_recreate(&RecreateVariant::Gaps, insertion_ctx, random)
    }
}

/// Cheapest insertion where a candidate may blink away with a small chance,
/// forcing exploration.
#[derive(Clone, Copy, PartialEq, Eq, Structural, Debug, Default)]
pub struct RecreateWithBlinks {
}

impl Recreate for RecreateWithBlinks {
    fn run(&self, insertion_ctx: InsertionContext, random: &mut Random) -> (r: InsertionContext) {
        run_recreate(&RecreateVariant::Blinks, insertion_ctx, random)
    }
}

/// Prioritises the job whose cheapest insertion is the most expensive.
#[derive(Clone, Copy, PartialEq, Eq, Structural, Debug, Default)]
pub struct RecreateWithFarthest {
}

impl Recreate for RecreateWithFarthest {
    fn run(&self, insertion_ctx: InsertionContext, random: &mut Random) -> (r: InsertionContext) {
        run_recreate(&RecreateVariant::Farthest, insertion_ctx, random)
    }
}

/// Inserts next to the most recently placed job, measured by duration.
#[derive(Clone, Copy, PartialEq, Eq, Structural, Debug, Default)]
pub struct RecreateWithNearestNeighbor {
}

impl Recreate for RecreateWithNearestNeighbor {
    fn run(&self, insertion_ctx: InsertionContext, random: &mut Random) -> (r: InsertionContext) {
        run_recreate(&RecreateVariant::NearestNeighbor, insertion_ctx, random)
    }
}

/// The ruin operators this library provides, as one composable kind.
#[derive(Clone, Copy, PartialEq, Eq, Structural, Debug)]
pub enum RuinOperator {
    AdjustedString(AdjustedStringRemoval),
    Neighbour(NeighbourRemoval),
    Worst(WorstJobRemoval),
    Cluster(ClusterRemoval),
    RandomJob(RandomJobRemoval),
    RandomRoute(RandomRouteRemoval),
}

impl Ruin for RuinOperator {
    fn ruin_solution(&self, insertion_ctx: InsertionContext, random: &mut Random) -> (r:
        InsertionContext) {
        match self {
            RuinOperator::AdjustedString(op) => op.ruin_solution(insertion_ctx, random),
            RuinOperator::Neighbour(op) => op.ruin_solution(insertion_ctx, random),
            RuinOperator::Worst(op) => op.ruin_solution(insertion_ctx, random),
            RuinOperator::Cluster(op) => op.ruin_solution(insertion_ctx, random),
            RuinOperator::RandomJob(op) => op.ruin_solution(insertion_ctx, random),
            RuinOperator::RandomRoute(op) => op.ruin_solution(insertion_ctx, random),
        }
    }
}

/// The recreate strategies this library provides, as one composable kind.
#[derive(Clone, Copy, PartialEq, Eq, Structural, Debug)]
pub enum RecreateOperator {
    Cheapest(RecreateWithCheapest),
    SkipBest(RecreateWithSkipBest),
    Regret(RecreateWithRegret),
    Perturbation(RecreateWithPerturbation),
    Gaps(RecreateWithGaps),
    Blinks(RecreateWithBlinks),
    Farthest(RecreateWithFarthest),
    NearestNeighbor(RecreateWithNearestNeighbor),
}

impl Recreate for RecreateOperator {
    fn run(&self, insertion_ctx: InsertionContext, random: &mut Random) -> (r: InsertionContext) {
        match self {
            RecreateOperator::Cheapest(op) => op.run(insertion_ctx, random),
            RecreateOperator::SkipBest(op) => op.run(insertion_ctx, random),
            RecreateOperator::Regret(op) => op.run(insertion_ctx, random),
            RecreateOperator::Perturbation(op) => op.run(insertion_ctx, random),
            RecreateOperator::Gaps(op) => op.run(insertion_ctx, random),
            RecreateOperator::Blinks(op) => op.run(insertion_ctx, random),
            RecreateOperator::Farthest(op) => op.run(insertion_ctx, random),
            RecreateOperator::NearestNeighbor(op) => op.run(insertion_ctx, random),
        }
    }
}

/// Picks a random job activity and relocates it: in best mode to the
/// cheapest feasible position across all routes, otherwise to a random
/// position of a random route. A job with no destination stays in the
/// required list; the job multiset is preserved either way. A move means a
/// job activity left its position: it re-entered some route (the required
/// list unchanged), or it sits appended to the required list.
pub fn relocate_random(ctx: &mut InsertionContext, random: &mut Random, best_mode: bool) -> (moved:
    bool)
    requires
        old(ctx).wf(),
    ensures
        final(ctx).wf(),
        final(ctx).solution.job_multiset() == old(ctx).solution.job_multiset(),
        final(ctx).problem == old(ctx).problem,
        final(ctx).solution.ignored == old(ctx).solution.ignored,
        final(ctx).solution.locked == old(ctx).solution.locked,
        final(ctx).solution.unassigned == old(ctx).solution.unassigned,
        old(ctx).solution.required@.is_prefix_of(final(ctx).solution.required@),
        !moved ==> *final(ctx) == *old(ctx),
        moved ==> old(ctx).solution.routes@.len() > 0 && (final(ctx).solution.required@ == old(
            ctx,
        ).solution.required@ || final(ctx).solution.required@.len() == old(
            ctx,
        ).solution.required@.len() + 1),
{
    proof {
        crate::solution::lemma_prefix_refl(old(ctx).solution.required@);
    }
    if ctx.solution.routes.len() == 0 {
        return false;
    }
    let from_route = random.next_in_range(0, ctx.solution.routes.len());
    let from_len = ctx.solution.routes[from_route].route.tour.activities.len();
    if from_len <= 1 {
        return false;
    }
    let act_idx = random.next_in_range(1, from_len);
    let act = ctx.solution.routes[from_route].route.tour.activities[act_idx];
    let id = match act.job {
        Some(id) => id,
        None => {
            return false;
        },
    };
    proof {
        assert(old(ctx).solution.routes@[from_route as int].wf());
        assert(old(ctx).solution.routes@[from_route as int].route.tour.activities@[act_idx as int].wf());
    }
    let ghost req_orig = old(ctx).solution.required@;
    remove_job_activity(ctx, from_route, act_idx);
    let target = Activity::new_for_job(act.place, id);
    let req_idx = ctx.solution.required.len() - 1;
    proof {
        assert(ctx.solution.required@ == req_orig.push(id));
        crate::solution::lemma_prefix_push(req_orig, req_orig, id);
    }

    // choose the destination position
    let mut destination: Option<(usize, usize)> = None;
    if best_mode {
        let mut best: Option<(usize, usize, Cost)> = None;
        let mut rix: usize = 0;
        while rix < ctx.solution.routes.len()
            invariant
                ctx.wf(),
                0 <= rix <= ctx.solution.routes@.len(),
                target.place.wf(),
                match best {
                    Some((b_route, b_prev, _)) => {
                        &&& b_route < ctx.solution.routes@.len()
                        &&& ctx.solution.routes@[b_route as int].route.tour.activities@.len()
                            < MAX_ACTIVITIES
                        &&& b_prev
                            < ctx.solution.routes@[b_route as int].route.tour.activities@.len()
                    },
                    None => true,
                },
            decreases ctx.solution.routes@.len() - rix,
        {
            let rc = &ctx.solution.routes[rix];
            if rc.route.tour.activities.len() < MAX_ACTIVITIES {
                let found = best_position_in_route(
                    &ctx.problem.transport,
                    &ctx.problem.activity,
                    rc,
                    &target,
                );
                if let Some((prev_idx, cost)) = found {
                    let better = match best {
                        Some((_, _, best_cost)) => cost < best_cost,
                        None => true,
                    };
                    if better {
                        best = Some((rix, prev_idx, cost));
                    }
                }
            }
            rix += 1;
        }
        if let Some((b_route, b_prev, _)) = best {
            destination = Some((b_route, b_prev + 1));
        }
    } else {
        let to_route = random.next_in_range(0, ctx.solution.routes.len());
        let to_len = ctx.solution.routes[to_route].route.tour.activities.len();
        if to_len < MAX_ACTIVITIES {
            let pos = random.next_in_range(1, to_len + 1);
            destination = Some((to_route, pos));
        }
    }
    match destination {
        Some((to_route, pos)) => {
            commit_insertion(ctx, to_route, pos, target, id, req_idx);
            proof {
                assert(ctx.solution.required@ =~= req_orig);
                crate::solution::lemma_prefix_refl(req_orig);
            }
        },
        None => {
        },
    }
    true
}

/// The local-search exchange operators: relocate a job to the best position
/// anywhere, to a random position of another route, or to another position
/// of some route chosen at random.
#[derive(Clone, Copy, PartialEq, Eq, Structural, Debug)]
pub enum ExchangeOperator {
    InterRouteBest,
    InterRouteRandom,
    IntraRouteRandom,
}

impl LocalOperator for ExchangeOperator {
    fn explore(
        &self,
        refinement_ctx: &RefinementContext,
        insertion_ctx: InsertionContext,
        random: &mut Random,
    ) -> (r: (InsertionContext, bool)) {
        let mut ctx = insertion_ctx;
        let moved = match self {
            ExchangeOperator::InterRouteBest => relocate_random(&mut ctx, random, true),
            ExchangeOperator::InterRouteRandom => relocate_random(&mut ctx, random, false),
            ExchangeOperator::IntraRouteRandom => relocate_random(&mut ctx, random, false),
        };
        (ctx, moved)
    }
}

/// Picks between weighted local operators and probes each chosen one until
/// a move applies, between `min_probes` and `max_probes` times.
pub struct CompositeLocalOperator<O> {
    pub operators: Vec<(O, u32)>,
    pub min_probes: usize,
    pub max_probes: usize,
}

impl<O> CompositeLocalOperator<O> {
    /// Creates the composite from weighted operators and a probe range.
    pub fn new(operators: Vec<(O, u32)>, min_probes: usize, max_probes: usize) -> (r:
        CompositeLocalOperator<O>)
        ensures
            r.operators == operators,
            r.min_probes == min_probes,
            r.max_probes == max_probes,
    {
        CompositeLocalOperator { operators, min_probes, max_probes }
    }
}

impl<O: LocalOperator> LocalOperator for CompositeLocalOperator<O> {
    fn explore(
        &self,
        refinement_ctx: &RefinementContext,
        insertion_ctx: InsertionContext,
        random: &mut Random,
    ) -> (r: (InsertionContext, bool)) {
        let mut ctx = insertion_ctx;
        let ghost orig = insertion_ctx;
        let probes = if self.min_probes < self.max_probes && self.max_probes < usize::MAX {
            random.next_in_range(self.min_probes, self.max_probes + 1)
        } else {
            self.min_probes
        };
        let mut step: usize = 0;
        while step < probes
            invariant
                ctx.wf(),
                ctx.solution.job_multiset() == orig.solution.job_multiset(),
                ctx.problem == orig.problem,
                ctx == orig,
                orig == insertion_ctx,
            decreases probes - step,
        {
            step += 1;
            if let Some(pick) = pick_by_weight(&self.operators, random) {
                let ghost pre = ctx;
                let (new_ctx, moved) = self.operators[pick].0.explore(refinement_ctx, ctx, random);
                ctx = new_ctx;
                if moved {
                    return (ctx, true);
                }
            }
        }
        (ctx, false)
    }
}

/// Looks up the place of the job `id`.
fn find_job_place(jobs: &Vec<Job>, id: u64) -> (r: Option<Place>)
    ensures
        match r {
            Some(p) => exists|j: int|
                0 <= j < jobs@.len() && (#[trigger] jobs@[j]).id == id && jobs@[j].place == p,
            None => true,
        },
{
    let mut i: usize = 0;
    while i < jobs.len()
        invariant
            0 <= i <= jobs@.len(),
        decreases jobs@.len() - i,
    {
        if jobs[i].id == id {
            return Some(jobs[i].place);
        }
        i += 1;
    }
    None
}

/// The candidate successor at position `i`: the activity after `i`, absent
/// at the end of an open tour.
pub open spec fn position_next(s: Seq<Activity>, i: int) -> Option<Activity> {
    if i + 1 < s.len() {
        Some(s[i + 1])
    } else {
        None
    }
}

/// The last candidate position of the tour: before the end terminal of a
/// closed tour, after the final activity of an open one.
pub open spec fn last_candidate(s: Seq<Activity>) -> int {
    if s.len() >= 2 && s[s.len() - 1].job is None {
        s.len() - 2
    } else {
        s.len() - 1
    }
}

/// The hard timing verdict for inserting `target` at candidate position
/// `i` of the route.
pub open spec fn position_verdict<T: TransportCost, A: ActivityCost>(
    t: &T,
    ac: &A,
    rc: RouteContext,
    target: Activity,
    i: int,
) -> Option<ActivityConstraintViolation> {
    let s = rc.route.tour.activities@;
    hard_activity_result(
        t,
        ac,
        rc.route.actor,
        s[i],
        target,
        position_next(s, i),
        rc.state.spec_get(LATEST_ARRIVAL_KEY as int, i + 1),
        UNASSIGNED_CODE,
    )
}

/// The estimated cost of inserting `target` at candidate position `i` of
/// the route.
pub open spec fn position_cost<T: TransportCost, A: ActivityCost>(
    t: &T,
    ac: &A,
    rc: RouteContext,
    target: Activity,
    i: int,
) -> int {
    let s = rc.route.tour.activities@;
    estimate_activity_spec(
        t,
        ac,
        rc.route.actor,
        rc.route.tour.spec_job_count() > 0,
        s[i],
        target,
        position_next(s, i),
        rc.state.spec_get(WAITING_KEY as int, i + 1),
    )
}

/// Where the position scan ends: at the first position whose verdict rules
/// every later position out, else one past the last candidate.
pub open spec fn scan_end<T: TransportCost, A: ActivityCost>(
    t: &T,
    ac: &A,
    rc: RouteContext,
    target: Activity,
    max_prev: int,
    i: int,
) -> int
    decreases max_prev + 1 - i,
{
    if i < 0 || i > max_prev {
        max_prev + 1
    } else {
        match position_verdict(t, ac, rc, target, i) {
            Some(v) => if v.stopped {
                i
            } else {
                scan_end(t, ac, rc, target, max_prev, i + 1)
            },
            None => scan_end(t, ac, rc, target, max_prev, i + 1),
        }
    }
}

/// The cheapest position of `target` in one route that the hard timing
/// constraint accepts: candidate positions are scanned in tour order up to
/// the first verdict that rules the rest out; `None` comes back only when
/// every scanned position is in violation, else the first position of
/// minimal estimated cost.
#[verifier::loop_isolation(false)]
pub fn best_position_in_route(
    transport: &MatrixTransportCost,
    activity: &SimpleActivityCost,
    route_ctx: &RouteContext,
    target: &Activity,
) -> (r: Option<(usize, Cost)>)
    requires
        TransportCost::wf(transport),
        ActivityCost::wf(activity),
        route_ctx.wf(),
        waiting_states_nonneg(*route_ctx),
        target.place.wf(),
    ensures
        ({
            let s = route_ctx.route.tour.activities@;
            let end = scan_end(
                transport,
                activity,
                *route_ctx,
                *target,
                last_candidate(s),
                0,
            );
            match r {
                None => forall|p: int|
                    0 <= p < end ==> (#[trigger] position_verdict(
                        transport,
                        activity,
                        *route_ctx,
                        *target,
                        p,
                    )) is Some,
                Some((prev_idx, cost)) => {
                    &&& prev_idx < s.len()
                    &&& prev_idx < end
                    &&& position_verdict(
                        transport,
                        activity,
                        *route_ctx,
                        *target,
                        prev_idx as int,
                    ) is None
                    &&& cost == position_cost(
                        transport,
                        activity,
                        *route_ctx,
                        *target,
                        prev_idx as int,
                    )
                    &&& forall|p: int|
                        0 <= p < end && (#[trigger] position_verdict(
                            transport,
                            activity,
                            *route_ctx,
                            *target,
                            p,
                        )) is None ==> cost <= position_cost(
                            transport,
                            activity,
                            *route_ctx,
                            *target,
                            p,
                        ) && (cost == position_cost(
                            transport,
                            activity,
                            *route_ctx,
                            *target,
                            p,
                        ) ==> prev_idx <= p)
                },
            }
        }),
{
    let hard = TimeHardActivityConstraint { code: UNASSIGNED_CODE, activity, transport };
    let soft = TimeSoftActivityConstraint { activity, transport };
    let acts = &route_ctx.route.tour.activities;
    let len = acts.len();
    let closed = len >= 2 && acts[len - 1].job.is_none();
    let max_prev = if closed {
        len - 2
    } else {
        len - 1
    };
    let ghost rc = *route_ctx;
    let ghost tv = *target;
    proof {
        assert(max_prev as int == last_candidate(rc.route.tour.activities@));
    }
    let mut best: Option<(usize, Cost)> = None;
    let mut i: usize = 0;
    while i <= max_prev
        invariant
            0 <= i <= max_prev + 1,
            scan_end(transport, activity, rc, tv, max_prev as int, 0) == scan_end(
                transport,
                activity,
                rc,
                tv,
                max_prev as int,
                i as int,
            ),
            match best {
                Some((prev_idx, cost)) => {
                    &&& prev_idx < i
                    &&& position_verdict(transport, activity, rc, tv, prev_idx as int) is None
                    &&& cost == position_cost(transport, activity, rc, tv, prev_idx as int)
                    &&& forall|p: int|
                        0 <= p < i && (#[trigger] position_verdict(
                            transport,
                            activity,
                            rc,
                            tv,
                            p,
                        )) is None ==> cost <= position_cost(transport, activity, rc, tv, p) && (
                        cost == position_cost(transport, activity, rc, tv, p) ==> prev_idx <= p)
                },
                None => forall|p: int|
                    0 <= p < i ==> (#[trigger] position_verdict(
                        transport,
                        activity,
                        rc,
                        tv,
                        p,
                    )) is Some,
            },
        decreases max_prev + 1 - i,
    {
        let next = if i + 1 < len {
            Some(&acts[i + 1])
        } else {
            None
        };
        let activity_ctx = ActivityContext { index: i, prev: &acts[i], target, next };
        let verdict = hard.evaluate_activity(route_ctx, &activity_ctx);
        proof {
            assert(activity_ctx.next_val() == position_next(rc.route.tour.activities@, i as int));
            assert(verdict == position_verdict(transport, activity, rc, tv, i as int));
        }
        match verdict {
            None => {
                let cost = soft.estimate_activity(route_ctx, &activity_ctx);
                proof {
                    assert(cost == position_cost(transport, activity, rc, tv, i as int));
                }
                let better = match best {
                    Some((_, best_cost)) => cost < best_cost,
                    None => true,
                };
                if better {
                    best = Some((i, cost));
                }
            },
            Some(violation) => {
                if violation.stopped {
                    proof {
                        assert(scan_end(transport, activity, rc, tv, max_prev as int, i as int)
                            == i as int);
                    }
                    return best;
                }
            },
        }
        i += 1;
    }
    proof {
        assert(scan_end(transport, activity, rc, tv, max_prev as int, i as int)
            == max_prev + 1);
    }
    best
}

/// Inserts the activity for job `id` at position `act_idx` of route
/// `route_idx`, removes the job from the required list at `req_idx`, and
/// reschedules the route.
#[verifier::rlimit(100)]
pub fn commit_insertion(
    ctx: &mut InsertionContext,
    route_idx: usize,
    act_idx: usize,
    target: Activity,
    id: u64,
    req_idx: usize,
)
    requires
        old(ctx).wf(),
        route_idx < old(ctx).solution.routes@.len(),
        1 <= act_idx <= old(ctx).solution.routes@[route_idx as int].route.tour.activities@.len(),
        old(ctx).solution.routes@[route_idx as int].route.tour.activities@.len() < MAX_ACTIVITIES,
        target.job == Some(id),
        target.place.wf(),
        target.schedule == (crate::common::Schedule { arrival: 0, departure: 0 }),
        req_idx < old(ctx).solution.required@.len(),
        old(ctx).solution.required@[req_idx as int] == id,
    ensures
        final(ctx).wf(),
        final(ctx).solution.job_multiset() == old(ctx).solution.job_multiset(),
        final(ctx).problem == old(ctx).problem,
        final(ctx).solution.required@ == old(ctx).solution.required@.remove(req_idx as int),
        final(ctx).solution.unassigned == old(ctx).solution.unassigned,
        final(ctx).solution.ignored == old(ctx).solution.ignored,
        final(ctx).solution.locked == old(ctx).solution.locked,
    {
    let ghost old_sol = old(ctx).solution;
    let ghost old_routes = old(ctx).solution.routes@;
    let transport = &ctx.problem.transport;
    let activity_cost = &ctx.problem.activity;
    let rc = route_at_mut(&mut ctx.solution.routes, route_idx);
    let ghost rc_before = *rc;
    rc.route.tour.activities.insert(act_idx, target);
    let ghost rc_inserted = *rc;
    proof {
        let so = rc_before.route.tour.activities@;
        let sn = rc_inserted.route.tour.activities@;
        assert(rc_before.wf()) by {
            assert(old_routes[route_idx as int].wf());
        }
        assert forall|j: int| 0 <= j < sn.len() implies (#[trigger] sn[j]).wf() by {
            if j < act_idx {
                assert(so[j].wf());
            } else if j > act_idx {
                assert(so[j - 1].wf());
            }
        }
        assert(sn[0] == so[0]);
    }
    update_route_schedule_and_state(transport, activity_cost, rc);
    ctx.solution.required.remove(req_idx);
    proof {
        assert(ctx.solution.routes@[route_idx as int].wf());
        assert forall|i: int| 0 <= i < ctx.solution.routes@.len() implies (
        #[trigger] ctx.solution.routes@[i]).wf() by {
            if i != route_idx {
                assert(old_routes[i].wf());
            }
        }
        // the accepted route keeps the inserted structure, so the job
        // accounting sees exactly one new activity for `id`
        let sn = ctx.solution.routes@[route_idx as int].route.tour.activities@;
        crate::solution::lemma_activity_jobs_same_structure(
            rc_inserted.route.tour.activities@,
            sn,
        );
        lemma_ms_required_to_route(
            old_routes,
            ctx.solution.routes@,
            route_idx as int,
            act_idx as int,
            target,
            id,
            old_sol.required@,
            ctx.solution.required@,
            req_idx as int,
        );
        lemma_job_multiset_parts(old_sol, ctx.solution);
        assert forall|i: int| 0 <= i < ctx.solution.routes@.len() implies waiting_states_nonneg(
            #[trigger] ctx.solution.routes@[i],
        ) by {
            if i != route_idx {
                assert(waiting_states_nonneg(old_routes[i]));
            } else {
                crate::insertion::lemma_accepted_waiting_nonneg(
                    transport,
                    activity_cost,
                    rc_inserted,
                    ctx.solution.routes@[i],
                );
            }
        }
    }
}

} // verus!
