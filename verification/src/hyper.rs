//! The static-selective hyper-heuristic: an ordered list of mutations, each
//! gated by a fixed or context-aware probability. A chain run exits early as
//! soon as a mutation strictly improves on the chain's starting candidate.

use vstd::prelude::*;

use crate::insertion::InsertionContext;
use crate::mutation::{
    AdjustedStringRemoval, ClusterRemoval, CompositeLocalOperator, CompositeRecreate,
    CompositeRuin, DecomposeSearch, ExchangeOperator, JobRemovalLimit, LocalSearch, Mutation,
    NeighbourRemoval, RandomJobRemoval, RandomRouteRemoval, RecreateOperator,
    RecreateWithBlinks, RecreateWithCheapest, RecreateWithFarthest, RecreateWithGaps,
    RecreateWithNearestNeighbor, RecreateWithPerturbation, RecreateWithRegret,
    RecreateWithSkipBest, RefinementContext, RuinAndRecreate, RuinOperator, SelectionPhase,
    WorstJobRemoval,
};
use crate::random::{spec_next, Random, PROBABILITY_SCALE};

verus! {

/// Which probability gates one mutation of the group: a fixed scalar, or a
/// per-phase scalar active only above the given problem and solution sizes.
pub enum MutationProbability {
    Scalar { probability: u32 },
    Context { jobs_threshold: usize, routes_threshold: usize, phases: Vec<(SelectionPhase, u32)> },
}

/// Creates a mutation probability which hits with a fixed chance, in basis
/// points.
pub fn create_scalar_mutation_probability(scalar_probability: u32) -> (r: MutationProbability)
    ensures
        r == (MutationProbability::Scalar { probability: scalar_probability }),
{
    MutationProbability::Scalar { probability: scalar_probability }
}

/// Creates a mutation probability which uses context state: inactive below
/// the thresholds, and per-phase chances above them.
pub fn create_context_mutation_probability(
    jobs_threshold: usize,
    routes_threshold: usize,
    phases: Vec<(SelectionPhase, u32)>,
) -> (r: MutationProbability)
    ensures
        r == (MutationProbability::Context { jobs_threshold, routes_threshold, phases }),
{
    MutationProbability::Context { jobs_threshold, routes_threshold, phases }
}

/// The chance configured for `phase`: the first matching entry, or zero.
/// Phases are expected to be distinct; with duplicate entries the first one
/// is the one that counts.
pub open spec fn phase_probability(phases: Seq<(SelectionPhase, u32)>, phase: SelectionPhase) -> u32
    decreases phases.len(),
{
    if phases.len() == 0 {
        0u32
    } else if phases[0].0 == phase {
        phases[0].1
    } else {
        phase_probability(phases.drop_first(), phase)
    }
}

/// Whether the probability setting lets the mutation run, given the
/// starting candidate's job and route counts.
#[verifier::loop_isolation(false)]
fn check_probability(
    gate: &MutationProbability,
    refinement_ctx: &RefinementContext,
    jobs_count: usize,
    routes_count: usize,
    random: &mut Random,
) -> (r: bool)
    ensures
        (gate matches MutationProbability::Scalar { probability } ==> r == (spec_next(
            old(random).state,
        ) % (PROBABILITY_SCALE as u64) < probability as u64) && final(random).state == spec_next(
            old(random).state,
        )),
        (gate matches MutationProbability::Context {
            jobs_threshold,
            routes_threshold,
            phases,
        } ==> if jobs_count < *jobs_threshold || routes_count < *routes_threshold {
            r == false && final(random).state == old(random).state
        } else {
            r == (spec_next(old(random).state) % (PROBABILITY_SCALE as u64) < phase_probability(
                phases@,
                refinement_ctx.selection_phase,
            ) as u64) && final(random).state == spec_next(old(random).state)
        }),
{
    match gate {
        MutationProbability::Scalar { probability } => random.is_hit(*probability),
        MutationProbability::Context { jobs_threshold, routes_threshold, phases } => {
            if jobs_count < *jobs_threshold || routes_count < *routes_threshold {
                return false;
            }
            proof {
                assert(phases@.skip(0int) =~= phases@);
            }
            let mut i: usize = 0;
            while i < phases.len()
                invariant
                    0 <= i <= phases@.len(),
                    random.state == old(random).state,
                    phase_probability(phases@, refinement_ctx.selection_phase)
                        == phase_probability(
                        phases@.skip(i as int),
                        refinement_ctx.selection_phase,
                    ),
                decreases phases@.len() - i,
            {
                proof {
                    assert(phases@.skip(i as int).drop_first() =~= phases@.skip(i + 1));
                    assert(phases@.skip(i as int)[0] == phases@[i as int]);
                }
                if phases[i].0 == refinement_ctx.selection_phase {
                    proof {
                        assert(phase_probability(phases@, refinement_ctx.selection_phase)
                            == phases@[i as int].1);
                    }
                    return random.is_hit(phases[i].1);
                }
                i += 1;
            }
            proof {
                assert(phases@.skip(phases@.len() as int).len() == 0);
            }
            random.is_hit(0)
        },
    }
}

/// A simple hyper-heuristic which selects mutation operators from a list
/// with fixed (static) probabilities.
pub struct StaticSelective<M> {
    pub mutation_group: Vec<(M, MutationProbability)>,
}

impl<M> StaticSelective<M> {
    /// Creates an instance from a mutation group.
    pub fn new(mutation_group: Vec<(M, MutationProbability)>) -> (r: StaticSelective<M>)
        ensures
            r.mutation_group == mutation_group,
    {
        StaticSelective { mutation_group }
    }
}

impl<M: Mutation> StaticSelective<M> {
    /// Runs the mutation chain on one candidate: gated mutations apply in
    /// order, and the chain returns immediately with the first result that
    /// strictly improves on the starting candidate, so that the improvement
    /// is never lost to a later mutation.
    pub fn mutate(
        &self,
        refinement_ctx: &RefinementContext,
        insertion_ctx: InsertionContext,
        random: &mut Random,
    ) -> (r: InsertionContext)
        requires
            insertion_ctx.wf(),
        ensures
            r.wf(),
            r.solution.job_multiset() == insertion_ctx.solution.job_multiset(),
            r.problem == insertion_ctx.problem,
            self.mutation_group@.len() == 0 ==> r == insertion_ctx,
    {
        let starting_fitness = insertion_ctx.fitness();
        let jobs_count = insertion_ctx.problem.jobs.len();
        let routes_count = insertion_ctx.solution.routes.len();
        let mut ctx = insertion_ctx;
        let ghost orig = insertion_ctx;
        let mut i: usize = 0;
        while i < self.mutation_group.len()
            invariant
                0 <= i <= self.mutation_group@.len(),
                ctx.wf(),
                ctx.solution.job_multiset() == orig.solution.job_multiset(),
                ctx.problem == orig.problem,
                orig == insertion_ctx,
                orig.wf(),
                self.mutation_group@.len() == 0 ==> ctx == orig,
            decreases self.mutation_group@.len() - i,
        {
            let hit = check_probability(
                &self.mutation_group[i].1,
                refinement_ctx,
                jobs_count,
                routes_count,
                random,
            );
            if hit {
                let new_ctx = self.mutation_group[i].0.mutate(refinement_ctx, ctx, random);
                if new_ctx.fitness() < starting_fitness {
                    // exit immediately: an improvement on the starting
                    // individual must not be lost
                    return new_ctx;
                }
                ctx = new_ctx;
            }
            i += 1;
        }
        ctx
    }

    /// Runs the chain on every individual in index order, aggregating
    /// results per index; one shared random source serves the whole pass,
    /// so per-index reproducibility is the concern of a caller that hands
    /// each index its own seeded source.
    pub fn search(
        &self,
        refinement_ctx: &RefinementContext,
        individuals: Vec<InsertionContext>,
        random: &mut Random,
    ) -> (r: Vec<InsertionContext>)
        requires
            forall|i: int| 0 <= i < individuals@.len() ==> (#[trigger] individuals@[i]).wf(),
        ensures
            r@.len() == individuals@.len(),
            forall|i: int|
                0 <= i < r@.len() ==> (#[trigger] r@[i]).wf() && r@[i].solution.job_multiset()
                    == individuals@[i].solution.job_multiset() && r@[i].problem
                    == individuals@[i].problem,
    {
        let ghost orig = individuals@;
        let mut rest = individuals;
        let mut results: Vec<InsertionContext> = Vec::new();
        while rest.len() > 0
            invariant
                results@.len() + rest@.len() == orig.len(),
                rest@ == orig.skip(results@.len() as int),
                forall|i: int| 0 <= i < orig.len() ==> (#[trigger] orig[i]).wf(),
                forall|i: int|
                    0 <= i < results@.len() ==> (#[trigger] results@[i]).wf()
                        && results@[i].solution.job_multiset() == orig[i].solution.job_multiset()
                        && results@[i].problem == orig[i].problem,
            decreases rest@.len(),
        {
            let individual = rest.remove(0);
            proof {
                assert(rest@ =~= orig.skip(results@.len() as int + 1));
                assert(individual == orig[results@.len() as int]);
            }
            let mutated = self.mutate(refinement_ctx, individual, random);
            results.push(mutated);
        }
        results
    }
}

/// The default ruin-and-recreate composite, spelled out once.
pub type DefaultRuinRecreate = RuinAndRecreate<
    CompositeRuin<RuinOperator>,
    CompositeRecreate<RecreateOperator>,
>;

/// The mutations the default configuration composes.
pub enum DefaultMutation {
    Decompose(DecomposeSearch<DefaultRuinRecreate>),
    Local(LocalSearch<CompositeLocalOperator<ExchangeOperator>>),
    RuinRecreate(DefaultRuinRecreate),
}

impl Mutation for DefaultMutation {
    fn mutate(
        &self,
        refinement_ctx: &RefinementContext,
        insertion_ctx: InsertionContext,
        random: &mut Random,
    ) -> (r: InsertionContext) {
        match self {
            DefaultMutation::Decompose(m) => m.mutate(refinement_ctx, insertion_ctx, random),
            DefaultMutation::Local(m) => m.mutate(refinement_ctx, insertion_ctx, random),
            DefaultMutation::RuinRecreate(m) => m.mutate(refinement_ctx, insertion_ctx, random),
        }
    }
}

/// The exact default composite local operator: the three exchange moves
/// with weights 100/30/30 and one to two probes.
pub open spec fn is_default_local_search(
    ls: LocalSearch<CompositeLocalOperator<ExchangeOperator>>,
) -> bool {
    &&& ls.operator.min_probes == 1
    &&& ls.operator.max_probes == 2
    &&& ls.operator.operators@.len() == 3
    &&& ls.operator.operators@[0] == (ExchangeOperator::InterRouteBest, 100u32)
    &&& ls.operator.operators@[1] == (ExchangeOperator::InterRouteRandom, 30u32)
    &&& ls.operator.operators@[2] == (ExchangeOperator::IntraRouteRandom, 30u32)
}

/// The exact default ruin-and-recreate composition: the ten weighted
/// recreate strategies and the six weighted removal groups, with every
/// operator, limit, probability and weight written out.
pub open spec fn is_default_ruin_recreate(m: DefaultRuinRecreate) -> bool {
    &&& m.recreate.recreates@.len() == 10
    &&& m.recreate.recreates@[0] == (
        RecreateOperator::SkipBest(RecreateWithSkipBest { min: 1, max: 2 }),
        50u32,
    )
    &&& m.recreate.recreates@[1] == (
        RecreateOperator::Regret(RecreateWithRegret { min: 2, max: 3 }),
        20u32,
    )
    &&& m.recreate.recreates@[2] == (
        RecreateOperator::Cheapest(RecreateWithCheapest {  }),
        20u32,
    )
    &&& m.recreate.recreates@[3] == (
        RecreateOperator::Perturbation(RecreateWithPerturbation {  }),
        10u32,
    )
    &&& m.recreate.recreates@[4] == (
        RecreateOperator::SkipBest(RecreateWithSkipBest { min: 3, max: 4 }),
        5u32,
    )
    &&& m.recreate.recreates@[5] == (RecreateOperator::Gaps(RecreateWithGaps {  }), 5u32)
    &&& m.recreate.recreates@[6] == (RecreateOperator::Blinks(RecreateWithBlinks {  }), 5u32)
    &&& m.recreate.recreates@[7] == (
        RecreateOperator::Farthest(RecreateWithFarthest {  }),
        2u32,
    )
    &&& m.recreate.recreates@[8] == (
        RecreateOperator::SkipBest(RecreateWithSkipBest { min: 4, max: 8 }),
        2u32,
    )
    &&& m.recreate.recreates@[9] == (
        RecreateOperator::NearestNeighbor(RecreateWithNearestNeighbor {  }),
        1u32,
    )
    &&& m.ruin.groups@.len() == 6
    &&& m.ruin.groups@[0].1 == 100u32
    &&& m.ruin.groups@[0].0@.len() == 4
    &&& m.ruin.groups@[0].0@[0] == (
        RuinOperator::AdjustedString(AdjustedStringRemoval { min_size: 1, max_size: 10 }),
        10000u32,
    )
    &&& m.ruin.groups@[0].0@[1] == (
        RuinOperator::Neighbour(
            NeighbourRemoval { limit: JobRemovalLimit { min: 2, max: 8, ratio: 1000u32 } },
        ),
        1000u32,
    )
    &&& m.ruin.groups@[0].0@[2] == (default_random_job(), 500u32)
    &&& m.ruin.groups@[0].0@[3] == (RuinOperator::RandomRoute(RandomRouteRemoval {  }), 100u32)
    &&& m.ruin.groups@[1].1 == 10u32
    &&& m.ruin.groups@[1].0@.len() == 3
    &&& m.ruin.groups@[1].0@[0] == (
        RuinOperator::Worst(
            WorstJobRemoval { limit: JobRemovalLimit { min: 2, max: 8, ratio: 1000u32 } },
        ),
        10000u32,
    )
    &&& m.ruin.groups@[1].0@[1] == (default_random_job(), 500u32)
    &&& m.ruin.groups@[1].0@[2] == (RuinOperator::RandomRoute(RandomRouteRemoval {  }), 100u32)
    &&& m.ruin.groups@[2].1 == 10u32
    &&& m.ruin.groups@[2].0@.len() == 3
    &&& m.ruin.groups@[2].0@[0] == (
        RuinOperator::Neighbour(
            NeighbourRemoval { limit: JobRemovalLimit { min: 2, max: 8, ratio: 1000u32 } },
        ),
        10000u32,
    )
    &&& m.ruin.groups@[2].0@[1] == (default_random_job(), 500u32)
    &&& m.ruin.groups@[2].0@[2] == (RuinOperator::RandomRoute(RandomRouteRemoval {  }), 100u32)
    &&& m.ruin.groups@[3].1 == 2u32
    &&& m.ruin.groups@[3].0@.len() == 2
    &&& m.ruin.groups@[3].0@[0] == (default_random_job(), 10000u32)
    &&& m.ruin.groups@[3].0@[1] == (RuinOperator::RandomRoute(RandomRouteRemoval {  }), 1000u32)
    &&& m.ruin.groups@[4].1 == 2u32
    &&& m.ruin.groups@[4].0@.len() == 2
    &&& m.ruin.groups@[4].0@[0] == (RuinOperator::RandomRoute(RandomRouteRemoval {  }), 10000u32)
    &&& m.ruin.groups@[4].0@[1] == (default_random_job(), 1000u32)
    &&& m.ruin.groups@[5].1 == 1u32
    &&& m.ruin.groups@[5].0@.len() == 3
    &&& m.ruin.groups@[5].0@[0] == (RuinOperator::Cluster(ClusterRemoval {  }), 10000u32)
    &&& m.ruin.groups@[5].0@[1] == (default_random_job(), 500u32)
    &&& m.ruin.groups@[5].0@[2] == (RuinOperator::RandomRoute(RandomRouteRemoval {  }), 100u32)
}

/// The random job removal with the default limit, as it recurs in the
/// default groups.
pub open spec fn default_random_job() -> RuinOperator {
    RuinOperator::RandomJob(
        RandomJobRemoval { limit: JobRemovalLimit { min: 2, max: 8, ratio: 1000u32 } },
    )
}

impl StaticSelective<DefaultMutation> {
    /// Creates default ruin-and-recreate: the ten weighted recreate
    /// strategies behind the six weighted removal groups.
    pub fn create_default_mutation() -> (r: DefaultRuinRecreate)
        ensures
            is_default_ruin_recreate(r),
    {
        let recreate = CompositeRecreate::new(
            vec![
                (RecreateOperator::SkipBest(RecreateWithSkipBest::new(1, 2)), 50u32),
                (RecreateOperator::Regret(RecreateWithRegret::new(2, 3)), 20u32),
                (RecreateOperator::Cheapest(RecreateWithCheapest {  }), 20u32),
                (RecreateOperator::Perturbation(RecreateWithPerturbation {  }), 10u32),
                (RecreateOperator::SkipBest(RecreateWithSkipBest::new(3, 4)), 5u32),
                (RecreateOperator::Gaps(RecreateWithGaps {  }), 5u32),
                (RecreateOperator::Blinks(RecreateWithBlinks {  }), 5u32),
                (RecreateOperator::Farthest(RecreateWithFarthest {  }), 2u32),
                (RecreateOperator::SkipBest(RecreateWithSkipBest::new(4, 8)), 2u32),
                (RecreateOperator::NearestNeighbor(RecreateWithNearestNeighbor {  }), 1u32),
            ],
        );
        let ruin = CompositeRuin::new(
            vec![
                (
                    vec![
                        (
                            RuinOperator::AdjustedString(AdjustedStringRemoval::default()),
                            10000u32,
                        ),
                        (
                            RuinOperator::Neighbour(
                                NeighbourRemoval::new(JobRemovalLimit::new(2, 8, 1000)),
                            ),
                            1000u32,
                        ),
                        (RuinOperator::RandomJob(RandomJobRemoval::default()), 500u32),
                        (RuinOperator::RandomRoute(RandomRouteRemoval {  }), 100u32),
                    ],
                    100u32,
                ),
                (
                    vec![
                        (RuinOperator::Worst(WorstJobRemoval::default()), 10000u32),
                        (RuinOperator::RandomJob(RandomJobRemoval::default()), 500u32),
                        (RuinOperator::RandomRoute(RandomRouteRemoval {  }), 100u32),
                    ],
                    10u32,
                ),
                (
                    vec![
                        (RuinOperator::Neighbour(NeighbourRemoval::default()), 10000u32),
                        (RuinOperator::RandomJob(RandomJobRemoval::default()), 500u32),
                        (RuinOperator::RandomRoute(RandomRouteRemoval {  }), 100u32),
                    ],
                    10u32,
                ),
                (
                    vec![
                        (RuinOperator::RandomJob(RandomJobRemoval::default()), 10000u32),
                        (RuinOperator::RandomRoute(RandomRouteRemoval {  }), 1000u32),
                    ],
                    2u32,
                ),
                (
                    vec![
                        (RuinOperator::RandomRoute(RandomRouteRemoval {  }), 10000u32),
                        (RuinOperator::RandomJob(RandomJobRemoval::default()), 1000u32),
                    ],
                    2u32,
                ),
                (
                    vec![
                        (RuinOperator::Cluster(ClusterRemoval::new_with_defaults()), 10000u32),
                        (RuinOperator::RandomJob(RandomJobRemoval::default()), 500u32),
                        (RuinOperator::RandomRoute(RandomRouteRemoval {  }), 100u32),
                    ],
                    1u32,
                ),
            ],
        );
        RuinAndRecreate::new(recreate, ruin)
    }

    /// Creates an instance with the default mutation group: a context-gated
    /// decomposition of the default mutation, a local search sandwiching
    /// the default ruin-and-recreate, with the canonical probabilities.
    pub fn new_with_defaults() -> (r: StaticSelective<DefaultMutation>)
        ensures
            r.mutation_group@.len() == 4,
            r.mutation_group@[0].0 matches DefaultMutation::Decompose(d)
                && is_default_ruin_recreate(d.inner) && d.min_parts == 2 && d.max_parts == 4
                && d.repetitions == 4,
            r.mutation_group@[0].1 matches MutationProbability::Context {
                jobs_threshold,
                routes_threshold,
                phases,
            } && jobs_threshold == 300 && routes_threshold == 10 && phases@.len() == 2
                && phases@[0] == (SelectionPhase::Exploration, 100u32) && phases@[1] == (
            SelectionPhase::Exploitation,
            200u32,
            ),
            r.mutation_group@[1].0 matches DefaultMutation::Local(ls) && is_default_local_search(
                ls,
            ),
            r.mutation_group@[1].1 == (MutationProbability::Scalar { probability: 500u32 }),
            r.mutation_group@[2].0 matches DefaultMutation::RuinRecreate(m)
                && is_default_ruin_recreate(m),
            r.mutation_group@[2].1 == (MutationProbability::Scalar { probability: 10000u32 }),
            r.mutation_group@[3].0 matches DefaultMutation::Local(ls) && is_default_local_search(
                ls,
            ),
            r.mutation_group@[3].1 == (MutationProbability::Scalar { probability: 500u32 }),
    {
        let first_local = LocalSearch::new(
            CompositeLocalOperator::new(
                vec![
                    (ExchangeOperator::InterRouteBest, 100u32),
                    (ExchangeOperator::InterRouteRandom, 30u32),
                    (ExchangeOperator::IntraRouteRandom, 30u32),
                ],
                1,
                2,
            ),
        );
        let second_local = LocalSearch::new(
            CompositeLocalOperator::new(
                vec![
                    (ExchangeOperator::InterRouteBest, 100u32),
                    (ExchangeOperator::InterRouteRandom, 30u32),
                    (ExchangeOperator::IntraRouteRandom, 30u32),
                ],
                1,
                2,
            ),
        );
        let decomposed = DecomposeSearch::new(Self::create_default_mutation(), (2, 4), 4);
        let default_mutation = Self::create_default_mutation();
        StaticSelective::new(
            vec![
                (
                    DefaultMutation::Decompose(decomposed),
                    create_context_mutation_probability(
                        300,
                        10,
                        vec![
                            (SelectionPhase::Exploration, 100u32),
                            (SelectionPhase::Exploitation, 200u32),
                        ],
                    ),
                ),
                (DefaultMutation::Local(first_local), create_scalar_mutation_probability(500)),
                (
                    DefaultMutation::RuinRecreate(default_mutation),
                    create_scalar_mutation_probability(10000),
                ),
                (DefaultMutation::Local(second_local), create_scalar_mutation_probability(500)),
            ],
        )
    }
}

} // verus!
