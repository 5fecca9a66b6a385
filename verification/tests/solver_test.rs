use vrp_core::common::{Schedule, TimeWindow};
use vrp_core::hyper::{create_scalar_mutation_probability, StaticSelective};
use vrp_core::insertion::{InsertionContext, Problem};
use vrp_core::models::{Activity, Actor, ActorDetail, Job, Place, Route, Tour};
use vrp_core::mutation::{
    AdjustedStringRemoval, ClusterRemoval, DecomposeSearch, JobRemovalLimit, Mutation,
    NeighbourRemoval, RandomJobRemoval, RecreateOperator, RecreateWithCheapest,
    RecreateWithFarthest, RecreateWithRegret, RecreateWithSkipBest, RefinementContext, Ruin,
    RuinAndRecreate, Recreate, SelectionPhase, WorstJobRemoval,
};
use vrp_core::oracles::{MatrixTransportCost, SimpleActivityCost};
use vrp_core::random::Random;
use vrp_core::route_state::RouteContext;
use vrp_core::solution::SolutionContext;

fn distance_matrix(size: i64) -> Vec<Vec<i64>> {
    (0..size)
        .map(|i| (0..size).map(|j| (i - j).abs()).collect())
        .collect()
}

fn terminal(location: usize) -> Activity {
    Activity {
        place: Place {
            location,
            duration: 0,
            time: TimeWindow::new(0, 1000),
        },
        schedule: Schedule::new(0, 0),
        job: None,
    }
}

fn job_activity(id: u64) -> Activity {
    Activity {
        place: job_place(),
        schedule: Schedule::new(0, 0),
        job: Some(id),
    }
}

fn job_place() -> Place {
    Place {
        location: 1,
        duration: 0,
        time: TimeWindow::new(0, 1000),
    }
}

fn actor() -> Actor {
    Actor {
        profile: 0,
        detail: ActorDetail {
            start: Some(0),
            end: Some(0),
            time: TimeWindow::new(0, 1000),
        },
        cost_per_waiting_time: 1,
    }
}

fn refinement() -> RefinementContext {
    RefinementContext {
        generation: 0,
        selection_phase: SelectionPhase::Initial,
    }
}

/// A solution with the twenty jobs `1..=20` assigned to one route.
fn twenty_jobs_context() -> InsertionContext {
    let mut activities = vec![terminal(0)];
    for id in 1..=20u64 {
        activities.push(job_activity(id));
    }
    activities.push(terminal(0));
    let route_ctx = RouteContext::new(Route {
        actor: actor(),
        tour: Tour { activities },
    });
    let jobs = (1..=20u64)
        .map(|id| Job {
            id,
            place: job_place(),
        })
        .collect();
    let problem = Problem::new(
        jobs,
        MatrixTransportCost::new(distance_matrix(4), distance_matrix(4)),
        SimpleActivityCost::new(),
    );
    InsertionContext::new(problem, SolutionContext::new(vec![route_ctx], vec![]))
}

fn all_job_ids(ctx: &InsertionContext) -> Vec<u64> {
    let mut ids = Vec::new();
    for route_ctx in &ctx.solution.routes {
        for activity in &route_ctx.route.tour.activities {
            if let Some(id) = activity.job {
                ids.push(id);
            }
        }
    }
    ids.extend(ctx.solution.required.iter().copied());
    ids.extend(ctx.solution.ignored.iter().copied());
    ids.extend(ctx.solution.unassigned.iter().map(|(id, _)| *id));
    ids.sort_unstable();
    ids
}

#[test]
fn ruin_and_recreate_preserves_total_jobs() {
    let ctx = twenty_jobs_context();
    let expected: Vec<u64> = (1..=20).collect();
    assert_eq!(all_job_ids(&ctx), expected);

    let mutation = RuinAndRecreate::new(
        RecreateOperator::Cheapest(RecreateWithCheapest::default()),
        RandomJobRemoval::new(JobRemovalLimit::new(4, 8, 1000)),
    );
    let mut random = Random::new(17);
    let mutated = mutation.mutate(&refinement(), ctx, &mut random);

    assert_eq!(all_job_ids(&mutated), expected);
}

#[test]
fn default_search_preserves_total_jobs() {
    let ctx = twenty_jobs_context();
    let expected: Vec<u64> = (1..=20).collect();

    let hyper = StaticSelective::new_with_defaults();
    let mut random = Random::new(23);
    let results = hyper.search(&refinement(), vec![ctx], &mut random);

    assert_eq!(results.len(), 1);
    assert_eq!(all_job_ids(&results[0]), expected);
}

#[test]
fn ruin_moves_jobs_back_to_required() {
    let ctx = twenty_jobs_context();
    let ruin = RandomJobRemoval::new(JobRemovalLimit::new(3, 4, 1000));
    let mut random = Random::new(5);

    let ruined = ruin.ruin_solution(ctx, &mut random);

    assert!(!ruined.solution.required.is_empty());
    assert_eq!(all_job_ids(&ruined), (1..=20).collect::<Vec<u64>>());
}

#[test]
fn recreate_with_cheapest_empties_required() {
    let ctx = twenty_jobs_context();
    let ruin = RandomJobRemoval::new(JobRemovalLimit::new(3, 4, 1000));
    let mut random = Random::new(11);
    let ruined = ruin.ruin_solution(ctx, &mut random);
    assert!(!ruined.solution.required.is_empty());

    let recreate = RecreateWithCheapest::default();
    let recreated = recreate.run(ruined, &mut random);

    assert!(recreated.solution.required.is_empty());
    assert_eq!(all_job_ids(&recreated), (1..=20).collect::<Vec<u64>>());
}

/// A controllable mutation: keeps the candidate, strictly improves it by
/// assigning one required job, or spoils it by marking one more job
/// required. As test code it is compiled without verification, so nothing
/// holds it to the `Mutation` contract — which is exactly what lets the
/// spoiling variant exist here.
enum TestMutation {
    Keep,
    Improve,
    Spoil,
}

impl Mutation for TestMutation {
    fn mutate(
        &self,
        _refinement_ctx: &RefinementContext,
        insertion_ctx: InsertionContext,
        _random: &mut Random,
    ) -> InsertionContext {
        let mut ctx = insertion_ctx;
        match self {
            TestMutation::Keep => {}
            TestMutation::Improve => {
                ctx.solution.required.pop();
            }
            TestMutation::Spoil => {
                ctx.solution.required.push(999);
            }
        }
        ctx
    }
}

#[test]
fn search_exits_early_on_first_improvement() {
    let mut ctx = twenty_jobs_context();
    ctx.solution.required = vec![7, 8];

    // the second mutation strictly improves on the starting individual, so
    // the chain must return without applying the third
    let hyper = StaticSelective::new(vec![
        (TestMutation::Keep, create_scalar_mutation_probability(10000)),
        (
            TestMutation::Improve,
            create_scalar_mutation_probability(10000),
        ),
        (
            TestMutation::Spoil,
            create_scalar_mutation_probability(10000),
        ),
    ]);
    let mut random = Random::new(3);
    let result = hyper.mutate(&refinement(), ctx, &mut random);

    assert_eq!(result.solution.required, vec![7]);
}

#[test]
fn skipped_mutations_do_not_run() {
    let mut ctx = twenty_jobs_context();
    ctx.solution.required = vec![7];

    // a zero probability gates the spoiling mutation off entirely
    let hyper = StaticSelective::new(vec![(
        TestMutation::Spoil,
        create_scalar_mutation_probability(0),
    )]);
    let mut random = Random::new(3);
    let result = hyper.mutate(&refinement(), ctx, &mut random);

    assert_eq!(result.solution.required, vec![7]);
}

#[test]
fn every_ruin_operator_preserves_total_jobs() {
    let expected: Vec<u64> = (1..=20).collect();
    let mut random = Random::new(29);

    let string_removed =
        AdjustedStringRemoval::default().ruin_solution(twenty_jobs_context(), &mut random);
    assert_eq!(all_job_ids(&string_removed), expected);

    let neighbours_removed =
        NeighbourRemoval::default().ruin_solution(twenty_jobs_context(), &mut random);
    assert_eq!(all_job_ids(&neighbours_removed), expected);
    assert!(!neighbours_removed.solution.required.is_empty());

    let worst_removed =
        WorstJobRemoval::default().ruin_solution(twenty_jobs_context(), &mut random);
    assert_eq!(all_job_ids(&worst_removed), expected);

    let cluster_removed =
        ClusterRemoval::new_with_defaults().ruin_solution(twenty_jobs_context(), &mut random);
    assert_eq!(all_job_ids(&cluster_removed), expected);
}

#[test]
fn every_recreate_strategy_empties_required() {
    let expected: Vec<u64> = (1..=20).collect();
    let mut random = Random::new(31);
    let ruin = RandomJobRemoval::new(JobRemovalLimit::new(3, 4, 1000));

    let skip_best = RecreateWithSkipBest::new(1, 2)
        .run(ruin.ruin_solution(twenty_jobs_context(), &mut random), &mut random);
    assert!(skip_best.solution.required.is_empty());
    assert_eq!(all_job_ids(&skip_best), expected);

    let regret = RecreateWithRegret::new(2, 3)
        .run(ruin.ruin_solution(twenty_jobs_context(), &mut random), &mut random);
    assert!(regret.solution.required.is_empty());
    assert_eq!(all_job_ids(&regret), expected);

    let farthest = RecreateWithFarthest::default()
        .run(ruin.ruin_solution(twenty_jobs_context(), &mut random), &mut random);
    assert!(farthest.solution.required.is_empty());
    assert_eq!(all_job_ids(&farthest), expected);
}

#[test]
fn decompose_search_preserves_total_jobs() {
    let expected: Vec<u64> = (1..=20).collect();
    let mut random = Random::new(37);

    let inner = RuinAndRecreate::new(
        RecreateOperator::Cheapest(RecreateWithCheapest::default()),
        RandomJobRemoval::new(JobRemovalLimit::new(2, 4, 1000)),
    );
    let decompose = DecomposeSearch::new(inner, (2, 4), 2);
    let mutated = decompose.mutate(&refinement(), twenty_jobs_context(), &mut random);

    assert_eq!(all_job_ids(&mutated), expected);
}
