use vrp_core::mdp::{
    merge_episode_deltas, merge_vec_maps, Agent, EstimateReduce, Greedy, LearningStrategy,
    QLearning, Simulator,
};
use vrp_core::random::Random;

const STATE_A: u64 = 0;
const STATE_B: u64 = 1;
const ACTION_1: u64 = 0;
const ACTION_2: u64 = 1;

/// A two-state, two-action MDP with deterministic rewards: taking the first
/// action from the initial state pays one, everything else pays nothing,
/// and both actions lead to the terminal state without actions.
struct TwoStateAgent {
    state: u64,
    last_reward: i64,
}

impl TwoStateAgent {
    fn new() -> Self {
        TwoStateAgent {
            state: STATE_A,
            last_reward: 0,
        }
    }
}

impl Agent for TwoStateAgent {
    fn get_state(&self) -> u64 {
        self.state
    }

    fn get_actions(&self, state: u64) -> Vec<(u64, i64)> {
        if state == STATE_A {
            vec![(ACTION_1, 0), (ACTION_2, 0)]
        } else {
            vec![]
        }
    }

    fn take_action(&mut self, action: u64) {
        self.last_reward = if self.state == STATE_A && action == ACTION_1 {
            1
        } else {
            0
        };
        self.state = STATE_B;
    }

    fn reward(&self) -> i64 {
        self.last_reward
    }
}

#[test]
fn q_learning_converges_to_the_rewarding_action() {
    let mut simulator = Simulator::new(QLearning::new(1, 1, 1, 2), Greedy::default());
    let mut random = Random::new(9);

    for _ in 0..10 {
        simulator.run_episodes(
            vec![TwoStateAgent::new()],
            16,
            EstimateReduce::Max,
            &mut random,
        );
    }

    let policy = simulator.get_optimal_policy(STATE_A);
    let (action, estimate) = policy.expect("the initial state must have a learned policy");
    assert_eq!(action, ACTION_1);
    assert_eq!(estimate, 1);
    assert!(simulator.get_optimal_policy(STATE_B).is_none());
}

#[test]
fn unknown_states_have_no_policy() {
    let simulator: Simulator<QLearning, Greedy> =
        Simulator::new(QLearning::new(1, 2, 1, 2), Greedy::default());
    assert!(simulator.get_optimal_policy(77).is_none());
}

#[test]
fn can_merge_estimate_maps() {
    let merged = merge_vec_maps(
        vec![vec![(1, 5), (3, -2)], vec![(1, 7), (2, 1)], vec![(2, -4)]],
        EstimateReduce::Max,
    );
    assert_eq!(merged, vec![(1, 7), (3, -2), (2, 1)]);

    let last = merge_vec_maps(
        vec![vec![(1, 5)], vec![(1, 7)]],
        EstimateReduce::Last,
    );
    assert_eq!(last, vec![(1, 7)]);
}

#[test]
fn merging_deltas_reduces_observed_values_and_keeps_the_rest() {
    let mut q = vec![(0u64, vec![(5u64, 100i64)])];
    let deltas = vec![
        vec![(0u64, vec![(1u64, 3i64)])],
        vec![(0u64, vec![(1u64, 7i64), (2u64, 2i64)])],
        vec![(9u64, vec![(1u64, -1i64)])],
    ];
    merge_episode_deltas(&mut q, deltas, EstimateReduce::Max);
    assert_eq!(
        q,
        vec![
            (0u64, vec![(5u64, 100i64), (1u64, 7i64), (2u64, 2i64)]),
            (9u64, vec![(1u64, -1i64)]),
        ]
    );
}

#[test]
fn q_learning_update_is_exact() {
    // value = old + alpha * (reward + gamma * max_next - old), with
    // alpha = 1/2 and gamma = 1/2 over estimates whose maximum is 8
    let strategy = QLearning::new(1, 2, 1, 2);
    let updated = strategy.value(10, 4, &vec![(0, 8), (1, -3)]);
    assert_eq!(updated, 9);
}
