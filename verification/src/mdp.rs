//! A Markov-decision-process simulator with Q-learning: agents take actions
//! under a policy, estimated action values are updated from observed
//! rewards, and per-agent estimate deltas are merged back into the shared
//! estimates. States and actions are integer identifiers; estimates are
//! bounded integers.

use vstd::prelude::*;

use crate::random::Random;
use crate::timing::{spec_max, spec_min};

verus! {

/// Bound on every estimate, reward and learned value.
pub const MAX_Q: i64 = 0x100_0000_0000;

/// Weighted estimates of the actions available in one state.
pub type ActionEstimates = Vec<(u64, i64)>;

/// Estimates per state.
pub type StateEstimates = Vec<(u64, ActionEstimates)>;

/// The index of the first entry with key `k`, or `-1`.
pub open spec fn assoc_index<V>(s: Seq<(u64, V)>, k: u64) -> int
    decreases s.len(),
{
    if s.len() == 0 {
        -1
    } else if s[0].0 == k {
        0
    } else {
        let rest = assoc_index(s.drop_first(), k);
        if rest < 0 {
            -1
        } else {
            rest + 1
        }
    }
}

/// The value of the first entry with key `k`, if any.
pub open spec fn assoc_get<V>(s: Seq<(u64, V)>, k: u64) -> Option<V> {
    let i = assoc_index(s, k);
    if i < 0 {
        None
    } else {
        Some(s[i].1)
    }
}

/// Every key occurs at most once.
pub open spec fn assoc_unique<V>(s: Seq<(u64, V)>) -> bool {
    forall|i: int, j: int| 0 <= i < j < s.len() ==> (#[trigger] s[i]).0 != (#[trigger] s[j]).0
}

/// Every estimate value lies within the supported range.
pub open spec fn estimates_bounded(s: Seq<(u64, i64)>) -> bool {
    forall|i: int| 0 <= i < s.len() ==> -MAX_Q <= (#[trigger] s[i]).1 <= MAX_Q
}

/// A well-formed action estimate map: unique actions, bounded values.
pub open spec fn estimates_wf(s: Seq<(u64, i64)>) -> bool {
    &&& assoc_unique(s)
    &&& estimates_bounded(s)
}

/// A well-formed state estimate map.
pub open spec fn state_estimates_wf(s: Seq<(u64, ActionEstimates)>) -> bool {
    &&& assoc_unique(s)
    &&& forall|i: int| 0 <= i < s.len() ==> estimates_wf((#[trigger] s[i]).1@)
}

/// The index bounds and meaning of `assoc_index`.
pub proof fn lemma_assoc_index<V>(s: Seq<(u64, V)>, k: u64)
    ensures
        -1 <= assoc_index(s, k) < s.len(),
        assoc_index(s, k) >= 0 ==> s[assoc_index(s, k)].0 == k,
    decreases s.len(),
{
    if s.len() > 0 && s[0].0 != k {
        lemma_assoc_index(s.drop_first(), k);
    }
}

/// Finds the first entry with key `k`.
#[verifier::loop_isolation(false)]
fn assoc_find<V>(m: &Vec<(u64, V)>, k: u64) -> (r: Option<usize>)
    ensures
        match r {
            Some(i) => i < m@.len() && i == assoc_index(m@, k),
            None => assoc_index(m@, k) == -1,
        },
{
    let mut i: usize = 0;
    proof {
        assert(m@.skip(0int) =~= m@);
    }
    while i < m.len()
        invariant
            0 <= i <= m@.len(),
            (assoc_index(m@, k) == -1 && assoc_index(m@.skip(i as int), k) == -1) || (assoc_index(
                m@,
                k,
            ) >= i && assoc_index(m@.skip(i as int), k) == assoc_index(m@, k) - i),
        decreases m@.len() - i,
    {
        proof {
            assert(m@.skip(i as int).drop_first() =~= m@.skip(i as int + 1));
            assert(m@.skip(i as int)[0] == m@[i as int]);
        }
        if m[i].0 == k {
            return Some(i);
        }
        i += 1;
    }
    None
}

/// Sets `k` to `v` in the estimate map, replacing an earlier entry for the
/// same key or appending a new one.
#[verifier::loop_isolation(false)]
fn estimates_set(m: &mut Vec<(u64, i64)>, k: u64, v: i64)
    requires
        estimates_wf(old(m)@),
        -MAX_Q <= v <= MAX_Q,
    ensures
        estimates_wf(final(m)@),
        assoc_get(final(m)@, k) == Some(v),
        forall|other: u64| other != k ==> assoc_get(final(m)@, other) == assoc_get(old(m)@, other),
{
    let found = assoc_find(m, k);
    let ghost before = m@;
    match found {
        Some(i) => {
            m.set(i, (k, v));
            proof {
                lemma_assoc_index(before, k);
                lemma_assoc_set(before, m@, i as int, k, v);
            }
        },
        None => {
            m.push((k, v));
            proof {
                lemma_assoc_index(before, k);
                lemma_assoc_push(before, k, v);
            }
        },
    }
}

/// Replacing the entry at the index of `k` changes only `k`'s binding.
pub proof fn lemma_assoc_set<V>(s1: Seq<(u64, V)>, s2: Seq<(u64, V)>, i: int, k: u64, v: V)
    requires
        0 <= i < s1.len(),
        s1[i].0 == k,
        i == assoc_index(s1, k),
        s2 == s1.update(i, (k, v)),
        assoc_unique(s1),
    ensures
        assoc_unique(s2),
        assoc_get(s2, k) == Some(v),
        forall|other: u64| other != k ==> assoc_get(s2, other) == assoc_get(s1, other),
    decreases s1.len(),
{
    assert forall|other: u64| true implies #[trigger] assoc_index(s2, other) == assoc_index(
        s1,
        other,
    ) by {
        lemma_assoc_index_update(s1, s2, i, k, v, other);
    }
    lemma_assoc_index(s1, k);
    assert forall|other: u64| other != k implies assoc_get(s2, other) == assoc_get(s1, other) by {
        lemma_assoc_index(s1, other);
        let j = assoc_index(s1, other);
        if j >= 0 {
            assert(s1[j].0 == other);
            assert(j != i);
            assert(s2[j] == s1[j]);
        }
    }
}

/// The index of any key is unchanged by updating an entry in place with the
/// same key.
proof fn lemma_assoc_index_update<V>(
    s1: Seq<(u64, V)>,
    s2: Seq<(u64, V)>,
    i: int,
    k: u64,
    v: V,
    other: u64,
)
    requires
        0 <= i < s1.len(),
        s1[i].0 == k,
        s2 == s1.update(i, (k, v)),
    ensures
        assoc_index(s2, other) == assoc_index(s1, other),
    decreases s1.len(),
{
    if s1.len() > 0 {
        if i == 0 {
            assert(s2.drop_first() =~= s1.drop_first());
        } else {
            assert(s2.drop_first() =~= s1.drop_first().update(i - 1, (k, v)));
            lemma_assoc_index_update(s1.drop_first(), s2.drop_first(), i - 1, k, v, other);
        }
    }
}

/// Appending a fresh key binds it and changes nothing else.
pub proof fn lemma_assoc_push<V>(s: Seq<(u64, V)>, k: u64, v: V)
    requires
        assoc_index(s, k) == -1,
    ensures
        assoc_get(s.push((k, v)), k) == Some(v),
        forall|other: u64| other != k ==> assoc_get(s.push((k, v)), other) == assoc_get(s, other),
        assoc_unique(s) ==> assoc_unique(s.push((k, v))),
    decreases s.len(),
{
    lemma_assoc_push_index(s, k, v, k);
    assert forall|other: u64| other != k implies assoc_get(s.push((k, v)), other) == assoc_get(
        s,
        other,
    ) by {
        lemma_assoc_push_index(s, k, v, other);
        lemma_assoc_index(s, other);
        lemma_assoc_index(s.push((k, v)), other);
    }
    if assoc_unique(s) {
        lemma_assoc_no_dup(s, k);
        assert(assoc_unique(s.push((k, v)))) by {
            assert forall|a: int, b: int|
                0 <= a < b < s.push((k, v)).len() implies (#[trigger] s.push((k, v))[a]).0 != (
            #[trigger] s.push((k, v))[b]).0 by {
                if b == s.len() {
                    assert(s.push((k, v))[a] == s[a]);
                }
            }
        }
    }
}

/// The first-match characterisation of `assoc_index`.
proof fn lemma_assoc_index_char<V>(s: Seq<(u64, V)>, k: u64)
    ensures
        assoc_index(s, k) == -1 ==> forall|i: int| 0 <= i < s.len() ==> (#[trigger] s[i]).0 != k,
        assoc_index(s, k) >= 0 ==> 0 <= assoc_index(s, k) < s.len() && s[assoc_index(s, k)].0 == k
            && forall|j: int| 0 <= j < assoc_index(s, k) ==> (#[trigger] s[j]).0 != k,
    decreases s.len(),
{
    if s.len() > 0 && s[0].0 != k {
        lemma_assoc_index_char(s.drop_first(), k);
        lemma_assoc_index(s.drop_first(), k);
        assert forall|i: int| 1 <= i < s.len() implies s.drop_first()[i - 1] == s[i] by {}
    }
}

/// The first match determines `assoc_index`.
proof fn lemma_assoc_index_from_witness<V>(s: Seq<(u64, V)>, k: u64, i: int)
    requires
        0 <= i < s.len(),
        s[i].0 == k,
        forall|j: int| 0 <= j < i ==> (#[trigger] s[j]).0 != k,
    ensures
        assoc_index(s, k) == i,
    decreases s.len(),
{
    if i > 0 {
        assert(s[0].0 != k);
        assert forall|j: int| 0 <= j < i - 1 implies (#[trigger] s.drop_first()[j]).0 != k by {
            assert(s.drop_first()[j] == s[j + 1]);
        }
        assert(s.drop_first()[i - 1] == s[i]);
        lemma_assoc_index_from_witness(s.drop_first(), k, i - 1);
    }
}

/// A sequence without the key has no index for it.
proof fn lemma_assoc_index_none<V>(s: Seq<(u64, V)>, k: u64)
    requires
        forall|i: int| 0 <= i < s.len() ==> (#[trigger] s[i]).0 != k,
    ensures
        assoc_index(s, k) == -1,
    decreases s.len(),
{
    if s.len() > 0 {
        assert forall|i: int| 0 <= i < s.drop_first().len() implies (
        #[trigger] s.drop_first()[i]).0 != k by {
            assert(s.drop_first()[i] == s[i + 1]);
        }
        lemma_assoc_index_none(s.drop_first(), k);
    }
}

/// The index of any key after a push of a fresh key.
proof fn lemma_assoc_push_index<V>(s: Seq<(u64, V)>, k: u64, v: V, other: u64)
    requires
        assoc_index(s, k) == -1,
    ensures
        other == k ==> assoc_index(s.push((k, v)), other) == s.len(),
        other != k ==> assoc_index(s.push((k, v)), other) == assoc_index(s, other),
{
    let sp = s.push((k, v));
    lemma_assoc_index_char(s, k);
    if other == k {
        assert forall|j: int| 0 <= j < s.len() implies (#[trigger] sp[j]).0 != k by {
            assert(sp[j] == s[j]);
        }
        lemma_assoc_index_from_witness(sp, k, s.len() as int);
    } else {
        lemma_assoc_index_char(s, other);
        lemma_assoc_index(s, other);
        let i = assoc_index(s, other);
        if i >= 0 {
            assert forall|j: int| 0 <= j < i implies (#[trigger] sp[j]).0 != other by {
                assert(sp[j] == s[j]);
            }
            assert(sp[i] == s[i]);
            lemma_assoc_index_from_witness(sp, other, i);
        } else {
            assert forall|j: int| 0 <= j < sp.len() implies (#[trigger] sp[j]).0 != other by {
                if j < s.len() {
                    assert(sp[j] == s[j]);
                }
            }
            lemma_assoc_index_none(sp, other);
        }
    }
}

/// A key with index `-1` occurs nowhere in the sequence.
proof fn lemma_assoc_no_dup<V>(s: Seq<(u64, V)>, k: u64)
    requires
        assoc_index(s, k) == -1,
    ensures
        forall|i: int| 0 <= i < s.len() ==> (#[trigger] s[i]).0 != k,
    decreases s.len(),
{
    if s.len() > 0 {
        lemma_assoc_no_dup(s.drop_first(), k);
        assert forall|i: int| 0 <= i < s.len() implies (#[trigger] s[i]).0 != k by {
            if i > 0 {
                assert(s.drop_first()[i - 1] == s[i]);
            }
        }
    }
}

/// The greatest estimate value, or zero when no action is available.
pub open spec fn est_max(s: Seq<(u64, i64)>) -> int
    decreases s.len(),
{
    if s.len() == 0 {
        0
    } else if s.len() == 1 {
        s[0].1 as int
    } else {
        spec_max(s[0].1 as int, est_max(s.drop_first()))
    }
}

/// The first action attaining the greatest estimate.
pub open spec fn first_argmax(s: Seq<(u64, i64)>) -> u64
    decreases s.len(),
{
    if s.len() == 0 {
        0u64
    } else if s[0].1 == est_max(s) {
        s[0].0
    } else {
        first_argmax(s.drop_first())
    }
}

/// The greedy selection: the first action attaining the greatest estimate,
/// or none when no action is available.
pub fn select_greedy(estimates: &ActionEstimates) -> (r: Option<u64>)
    ensures
        estimates@.len() == 0 ==> r is None,
        estimates@.len() > 0 ==> r == Some(first_argmax(estimates@)),
        r matches Some(a) ==> assoc_get(estimates@, a) is Some,
{
    if estimates.len() == 0 {
        return None;
    }
    let mut best_idx: usize = 0;
    let mut i: usize = 1;
    while i < estimates.len()
        invariant
            0 <= best_idx < i <= estimates@.len(),
            estimates@.len() > 0,
            forall|j: int|
                0 <= j < i ==> (#[trigger] estimates@[j]).1 <= estimates@[best_idx as int].1,
            forall|j: int|
                0 <= j < best_idx ==> (#[trigger] estimates@[j]).1 < estimates@[best_idx as int].1,
        decreases estimates@.len() - i,
    {
        if estimates[i].1 > estimates[best_idx].1 {
            best_idx = i;
        }
        i += 1;
    }
    proof {
        lemma_first_argmax_characterisation(estimates@, best_idx as int);
        lemma_assoc_of_index(estimates@, best_idx as int);
    }
    Some(estimates[best_idx].0)
}

/// An agent interacting with its environment: it exposes its state, the
/// actions it offers in a state, takes an action, and reports the reward of
/// its current state.
pub trait Agent {
    /// The current state.
    fn get_state(&self) -> u64;

    /// The actions available in `state`, with their initial estimates.
    fn get_actions(&self, state: u64) -> ActionEstimates;

    /// Performs `action`, changing the current state.
    fn take_action(&mut self, action: u64);

    /// The reward of the current state.
    fn reward(&self) -> i64;
}

/// A strategy updating an action value from the observed reward and the
/// estimates of the successor state.
pub trait LearningStrategy {
    /// The strategy's own validity condition.
    spec fn wf(&self) -> bool;

    /// The updated value as a mathematical function.
    spec fn spec_value(&self, reward: int, old_value: int, max_next: int) -> int;

    /// Computes the updated value of an action from the reward, its old
    /// value and the successor state's estimates.
    fn value(&self, reward_value: i64, old_value: i64, estimates: &ActionEstimates) -> (r: i64)
        requires
            self.wf(),
            -MAX_Q <= reward_value <= MAX_Q,
            -MAX_Q <= old_value <= MAX_Q,
            estimates_wf(estimates@),
        ensures
            r == self.spec_value(reward_value as int, old_value as int, est_max(estimates@)),
            -MAX_Q <= r <= MAX_Q,
    ;
}

/// A strategy choosing the next action from the current estimates.
pub trait PolicyStrategy {
    /// Selects an action, or none to terminate the episode.
    fn select(&self, estimates: &ActionEstimates, random: &mut Random) -> (r: Option<u64>)
        ensures
            match r {
                Some(a) => assoc_get(estimates@, a) is Some,
                None => true,
            },
    ;
}

/// The greedy policy: always the first action with the greatest estimate.
#[derive(Clone, Copy, PartialEq, Eq, Structural, Debug, Default)]
pub struct Greedy {
}

impl PolicyStrategy for Greedy {
    fn select(&self, estimates: &ActionEstimates, random: &mut Random) -> (r: Option<u64>) {
        select_greedy(estimates)
    }
}

/// A sequence element's key is bound in the map when keys before it differ
/// or not; either way its key has some binding.
proof fn lemma_assoc_of_index(s: Seq<(u64, i64)>, i: int)
    requires
        0 <= i < s.len(),
    ensures
        assoc_get(s, s[i].0) is Some,
    decreases s.len(),
{
    lemma_assoc_index(s, s[i].0);
    if s[0].0 != s[i].0 {
        lemma_assoc_of_index(s.drop_first(), i - 1);
    }
}

/// The element strictly greater than everything before it and no smaller
/// than everything after it is the first argmax.
proof fn lemma_first_argmax_characterisation(s: Seq<(u64, i64)>, b: int)
    requires
        0 <= b < s.len(),
        forall|j: int| 0 <= j < s.len() ==> (#[trigger] s[j]).1 <= s[b].1,
        forall|j: int| 0 <= j < b ==> (#[trigger] s[j]).1 < s[b].1,
    ensures
        est_max(s) == s[b].1,
        first_argmax(s) == s[b].0,
    decreases s.len(),
{
    lemma_est_max_is_max(s);
    if b > 0 {
        assert forall|j: int| 0 <= j < s.drop_first().len() implies (
        #[trigger] s.drop_first()[j]).1 <= s.drop_first()[b - 1].1 by {
            assert(s.drop_first()[j] == s[j + 1]);
        }
        lemma_first_argmax_characterisation(s.drop_first(), b - 1);
    }
}

/// The greatest estimate is attained and bounds every element.
proof fn lemma_est_max_is_max(s: Seq<(u64, i64)>)
    requires
        s.len() > 0,
    ensures
        forall|j: int| 0 <= j < s.len() ==> (#[trigger] s[j]).1 <= est_max(s),
        exists|j: int| 0 <= j < s.len() && (#[trigger] s[j]).1 == est_max(s),
    decreases s.len(),
{
    if s.len() == 1 {
        assert(s[0].1 == est_max(s));
    } else {
        lemma_est_max_is_max(s.drop_first());
        assert forall|j: int| 0 <= j < s.len() implies (#[trigger] s[j]).1 <= est_max(s) by {
            if j > 0 {
                assert(s.drop_first()[j - 1] == s[j]);
            }
        }
        if s[0].1 == est_max(s) {
            assert(exists|j: int| 0 <= j < s.len() && (#[trigger] s[j]).1 == est_max(s)) by {
                assert(s[0].1 == est_max(s));
            }
        } else {
            let w = choose|j: int|
                0 <= j < s.drop_first().len() && (#[trigger] s.drop_first()[j]).1 == est_max(
                    s.drop_first(),
                );
            assert(s.drop_first()[w] == s[w + 1]);
            assert(s[w + 1].1 == est_max(s));
        }
    }
}

/// A positive fraction `num/den`, at most one, applied to an integer with
/// truncation toward zero.
pub open spec fn spec_scale(num: int, den: int, x: int) -> int {
    if x >= 0 {
        (num * x) / den
    } else {
        -((num * (-x)) / den)
    }
}

/// Applies the fraction `num/den` to `x`, truncating toward zero.
fn scale_fraction(num: i64, den: i64, x: i64) -> (r: i64)
    requires
        0 <= num <= den,
        1 <= den <= 1024,
        -0x1_0000_0000_0000 <= x <= 0x1_0000_0000_0000,
    ensures
        r == spec_scale(num as int, den as int, x as int),
        -0x1_0000_0000_0000 <= r <= 0x1_0000_0000_0000,
        x >= 0 ==> 0 <= r <= x,
        x < 0 ==> x <= r <= 0,
{
    let magnitude: u64 = if x >= 0 {
        x as u64
    } else {
        (-x) as u64
    };
    proof {
        assert(num as u64 * magnitude <= 1024 * 0x1_0000_0000_0000) by (nonlinear_arith)
            requires
                0 <= num <= 1024,
                0 <= magnitude <= 0x1_0000_0000_0000,
        ;
    }
    let scaled = (num as u64 * magnitude) / (den as u64);
    proof {
        assert(num * magnitude <= den * magnitude) by (nonlinear_arith)
            requires
                0 <= num <= den,
                0 <= magnitude,
        ;
        vstd::arithmetic::div_mod::lemma_div_is_ordered(
            num as int * magnitude as int,
            den as int * magnitude as int,
            den as int,
        );
        vstd::arithmetic::div_mod::lemma_div_by_multiple(magnitude as int, den as int);
        vstd::arithmetic::div_mod::lemma_div_pos_is_pos(num as int * magnitude as int, den as int);
        assert(num as int * magnitude as int >= 0) by (nonlinear_arith)
            requires
                num >= 0,
                magnitude >= 0,
        ;
        assert(den as int * magnitude as int == magnitude as int * den as int) by (nonlinear_arith);
        assert((den as int * magnitude as int) / (den as int) == magnitude as int);
        assert((num as int * magnitude as int) / (den as int) <= magnitude as int);
    }
    if x >= 0 {
        scaled as i64
    } else {
        -(scaled as i64)
    }
}

/// Clamps a value to the supported estimate range.
pub open spec fn spec_clamp(v: int) -> int {
    spec_min(MAX_Q as int, spec_max(-MAX_Q as int, v))
}

/// Clamps a value to the supported estimate range.
fn clamp_estimate(v: i64) -> (r: i64)
    ensures
        r == spec_clamp(v as int),
        -MAX_Q <= r <= MAX_Q,
{
    if v > MAX_Q {
        MAX_Q
    } else if v < -MAX_Q {
        -MAX_Q
    } else {
        v
    }
}

/// Q-learning: the new value moves the old one toward the observed reward
/// plus the discounted best successor estimate, by the learning rate. Both
/// rates are fractions with small denominators; results are clamped to the
/// estimate range.
#[derive(Clone, Copy, PartialEq, Eq, Structural, Debug)]
pub struct QLearning {
    pub alpha_num: i64,
    pub alpha_den: i64,
    pub gamma_num: i64,
    pub gamma_den: i64,
}

impl QLearning {
    /// Builds the strategy from the learning rate `alpha` and the discount
    /// `gamma`, each a fraction.
    pub fn new(alpha_num: i64, alpha_den: i64, gamma_num: i64, gamma_den: i64) -> (r: QLearning)
        ensures
            r == (QLearning { alpha_num, alpha_den, gamma_num, gamma_den }),
    {
        QLearning { alpha_num, alpha_den, gamma_num, gamma_den }
    }
}

impl LearningStrategy for QLearning {
    open spec fn wf(&self) -> bool {
        &&& 0 <= self.alpha_num <= self.alpha_den
        &&& 1 <= self.alpha_den <= 1024
        &&& 0 <= self.gamma_num <= self.gamma_den
        &&& 1 <= self.gamma_den <= 1024
    }

    open spec fn spec_value(&self, reward: int, old_value: int, max_next: int) -> int {
        let discounted = spec_scale(self.gamma_num as int, self.gamma_den as int, max_next);
        let delta = reward + discounted - old_value;
        spec_clamp(old_value + spec_scale(self.alpha_num as int, self.alpha_den as int, delta))
    }

    fn value(&self, reward_value: i64, old_value: i64, estimates: &ActionEstimates) -> (r: i64) {
        let max_next = max_estimate(estimates);
        let discounted = scale_fraction(self.gamma_num, self.gamma_den, max_next);
        let delta = reward_value + discounted - old_value;
        let step = scale_fraction(self.alpha_num, self.alpha_den, delta);
        clamp_estimate(old_value + step)
    }
}

/// The greatest estimate value of the map, or zero when it is empty.
fn max_estimate(estimates: &ActionEstimates) -> (r: i64)
    requires
        estimates_bounded(estimates@),
    ensures
        r == est_max(estimates@),
        -MAX_Q <= r <= MAX_Q,
    {
    if estimates.len() == 0 {
        return 0;
    }
    let mut best: i64 = estimates[0].1;
    let mut i: usize = 1;
    while i < estimates.len()
        invariant
            1 <= i <= estimates@.len(),
            estimates@.len() > 0,
            estimates_bounded(estimates@),
            -MAX_Q <= best <= MAX_Q,
            best as int == est_max(estimates@.take(i as int)),
        decreases estimates@.len() - i,
    {
        proof {
            lemma_est_max_take(estimates@, i as int);
        }
        if estimates[i].1 > best {
            best = estimates[i].1;
        }
        i += 1;
    }
    proof {
        assert(estimates@.take(estimates@.len() as int) =~= estimates@);
    }
    best
}

/// Extending a nonempty sequence by one element extends its maximum.
proof fn lemma_est_max_push(t: Seq<(u64, i64)>, x: (u64, i64))
    requires
        t.len() >= 1,
    ensures
        est_max(t.push(x)) == spec_max(est_max(t), x.1 as int),
    decreases t.len(),
{
    assert(t.push(x)[0] == t[0]);
    if t.len() == 1 {
        assert(t.push(x).drop_first() =~= seq![x]);
        assert(est_max(seq![x]) == x.1 as int);
        assert(est_max(t) == t[0].1 as int);
    } else {
        assert(t.push(x).drop_first() =~= t.drop_first().push(x));
        lemma_est_max_push(t.drop_first(), x);
    }
}

/// Extending a prefix by one element extends its maximum.
proof fn lemma_est_max_take(s: Seq<(u64, i64)>, i: int)
    requires
        1 <= i < s.len(),
    ensures
        est_max(s.take(i + 1)) == spec_max(est_max(s.take(i)), s[i].1 as int),
{
    assert(s.take(i + 1) =~= s.take(i).push(s[i]));
    lemma_est_max_push(s.take(i), s[i]);
}

/// The merge law of a batch of episode deltas: every delta is well formed,
/// and every state and action binding of the new estimates is the fold of
/// the values observed for it across the deltas, or its prior value when
/// none were.
pub open spec fn episodes_merged(
    reduce: EstimateReduce,
    q_old: Seq<(u64, ActionEstimates)>,
    q_new: Seq<(u64, ActionEstimates)>,
    deltas: Seq<StateEstimates>,
) -> bool {
    &&& forall|i: int| 0 <= i < deltas.len() ==> state_estimates_wf((#[trigger] deltas[i])@)
    &&& forall|s: u64, a: u64| #[trigger]
        q_value(q_new, s, a) == folded_binding(
            reduce,
            q_value(q_old, s, a),
            collected_state_values(deltas, s, a),
        )
}

/// A simulator to train agents over multiple episodes.
pub struct Simulator<L, P> {
    pub q: StateEstimates,
    pub learning_strategy: L,
    pub policy_strategy: P,
}

/// How merged estimate values for one state and action are combined.
#[derive(Clone, Copy, PartialEq, Eq, Structural, Debug)]
pub enum EstimateReduce {
    Max,
    Last,
}

/// The fold step of a reduce policy.
pub open spec fn spec_reduce(reduce: EstimateReduce, acc: int, v: int) -> int {
    match reduce {
        EstimateReduce::Max => spec_max(acc, v),
        EstimateReduce::Last => v,
    }
}

/// What merging one estimate map into an accumulator binds an action to:
/// the delta's value folded onto an existing binding, the delta's value for
/// a fresh action, the accumulator's binding where the delta is silent.
pub open spec fn merged_binding(
    reduce: EstimateReduce,
    acc: Option<i64>,
    delta: Option<i64>,
) -> Option<i64> {
    match delta {
        None => acc,
        Some(v) => Some(
            match acc {
                Some(a) => spec_reduce(reduce, a as int, v as int) as i64,
                None => v,
            },
        ),
    }
}

/// The values bound to `k` across the maps, in list order.
pub open spec fn collected_values(maps: Seq<ActionEstimates>, k: u64) -> Seq<i64>
    decreases maps.len(),
{
    if maps.len() == 0 {
        Seq::empty()
    } else {
        collected_values(maps.drop_last(), k) + match assoc_get(maps.last()@, k) {
            Some(v) => seq![v],
            None => Seq::<i64>::empty(),
        }
    }
}

/// The fold, in list order, of a value list under the reduce policy; zero
/// for the empty list, which never reaches a binding.
pub open spec fn fold_reduce(reduce: EstimateReduce, s: Seq<i64>) -> int
    decreases s.len(),
{
    if s.len() == 0 {
        0
    } else if s.len() == 1 {
        s[0] as int
    } else {
        spec_reduce(reduce, fold_reduce(reduce, s.drop_last()), s.last() as int)
    }
}

/// A fold of values from the estimate range stays in the estimate range.
pub proof fn lemma_fold_reduce_bounded(reduce: EstimateReduce, s: Seq<i64>)
    requires
        s.len() >= 1,
        forall|i: int| 0 <= i < s.len() ==> -MAX_Q <= #[trigger] s[i] <= MAX_Q,
    ensures
        -MAX_Q <= fold_reduce(reduce, s) <= MAX_Q,
    decreases s.len(),
{
    if s.len() > 1 {
        lemma_fold_reduce_bounded(reduce, s.drop_last());
    }
}

/// Every value collected from well-formed maps lies in the estimate range.
pub proof fn lemma_collected_values_bounded(maps: Seq<ActionEstimates>, k: u64)
    requires
        forall|i: int| 0 <= i < maps.len() ==> estimates_wf((#[trigger] maps[i])@),
    ensures
        forall|i: int|
            0 <= i < collected_values(maps, k).len() ==> -MAX_Q
                <= #[trigger] collected_values(maps, k)[i] <= MAX_Q,
    decreases maps.len(),
{
    if maps.len() > 0 {
        assert forall|i: int| 0 <= i < maps.drop_last().len() implies estimates_wf(
            (#[trigger] maps.drop_last()[i])@,
        ) by {
            assert(maps.drop_last()[i] == maps[i]);
        }
        lemma_collected_values_bounded(maps.drop_last(), k);
        let last = maps.last()@;
        let col_prev = collected_values(maps.drop_last(), k);
        let col = collected_values(maps, k);
        assert forall|i: int| 0 <= i < col.len() implies -MAX_Q <= #[trigger] col[i] <= MAX_Q by {
            if i < col_prev.len() {
                assert(col[i] == col_prev[i]);
            } else {
                lemma_assoc_index(last, k);
                assert(col[i] == assoc_get(last, k)->0);
            }
        }
    }
}

/// Folds the entries of `delta` into `acc`: a fresh action is inserted, an
/// existing one combined with the reduce policy.
#[verifier::loop_isolation(false)]
fn merge_estimates_into(acc: &mut ActionEstimates, delta: &ActionEstimates, reduce: EstimateReduce)
    requires
        estimates_wf(old(acc)@),
        estimates_wf(delta@),
    ensures
        estimates_wf(final(acc)@),
        forall|k: u64| #[trigger]
            assoc_get(final(acc)@, k) == merged_binding(
                reduce,
                assoc_get(old(acc)@, k),
                assoc_get(delta@, k),
            ),
{
    let mut i: usize = 0;
    while i < delta.len()
        invariant
            0 <= i <= delta@.len(),
            estimates_wf(acc@),
            forall|k: u64|
                0 <= assoc_index(delta@, k) < i ==> #[trigger] assoc_get(acc@, k)
                    == merged_binding(reduce, assoc_get(old(acc)@, k), assoc_get(delta@, k)),
            forall|k: u64|
                !(0 <= assoc_index(delta@, k) < i) ==> #[trigger] assoc_get(acc@, k) == assoc_get(
                    old(acc)@,
                    k,
                ),
        decreases delta@.len() - i,
    {
        let (action, value) = delta[i];
        proof {
            assert forall|j: int| 0 <= j < i implies (#[trigger] delta@[j]).0 != action by {}
            lemma_assoc_index_from_witness(delta@, action, i as int);
            assert(assoc_get(delta@, action) == Some(value));
            assert(assoc_get(acc@, action) == assoc_get(old(acc)@, action));
        }
        let merged = match assoc_find(acc, action) {
            Some(j) => {
                let existing = acc[j].1;
                proof {
                    assert(-MAX_Q <= existing <= MAX_Q);
                }
                match reduce {
                    EstimateReduce::Max => {
                        if existing >= value {
                            existing
                        } else {
                            value
                        }
                    },
                    EstimateReduce::Last => value,
                }
            },
            None => value,
        };
        proof {
            assert(-MAX_Q <= delta@[i as int].1 <= MAX_Q);
            assert(Some(merged) == merged_binding(
                reduce,
                assoc_get(old(acc)@, action),
                assoc_get(delta@, action),
            ));
        }
        estimates_set(acc, action, merged);
        proof {
            assert forall|k: u64| 0 <= assoc_index(delta@, k) < i + 1 implies #[trigger] assoc_get(
                acc@,
                k,
            ) == merged_binding(reduce, assoc_get(old(acc)@, k), assoc_get(delta@, k)) by {
                if k != action {
                    lemma_assoc_index(delta@, k);
                    if assoc_index(delta@, k) == i {
                        assert(delta@[i as int].0 == k);
                    }
                }
            }
        }
        i += 1;
    }
    proof {
        assert forall|k: u64| #[trigger]
            assoc_get(acc@, k) == merged_binding(
                reduce,
                assoc_get(old(acc)@, k),
                assoc_get(delta@, k),
            ) by {
            lemma_assoc_index(delta@, k);
        }
    }
}

/// Merges a list of action estimate maps into one: every action bound by
/// some input map is bound to the fold, in list order, of the values it is
/// bound to across the maps; nothing else is bound.
pub fn merge_vec_maps(vec_map: Vec<ActionEstimates>, reduce: EstimateReduce) -> (r:
    ActionEstimates)
    requires
        forall|i: int| 0 <= i < vec_map@.len() ==> estimates_wf((#[trigger] vec_map@[i])@),
    ensures
        estimates_wf(r@),
        forall|k: u64| #[trigger]
            assoc_get(r@, k) == {
                let col = collected_values(vec_map@, k);
                if col.len() == 0 {
                    None::<i64>
                } else {
                    Some(fold_reduce(reduce, col) as i64)
                }
            },
{
    let mut merged: ActionEstimates = Vec::new();
    let mut i: usize = 0;
    proof {
        assert forall|k: u64| #[trigger]
            collected_values(vec_map@.take(0int), k).len() == 0 by {}
    }
    while i < vec_map.len()
        invariant
            0 <= i <= vec_map@.len(),
            estimates_wf(merged@),
            forall|j: int| 0 <= j < vec_map@.len() ==> estimates_wf((#[trigger] vec_map@[j])@),
            forall|k: u64| #[trigger]
                assoc_get(merged@, k) == {
                    let col = collected_values(vec_map@.take(i as int), k);
                    if col.len() == 0 {
                        None::<i64>
                    } else {
                        Some(fold_reduce(reduce, col) as i64)
                    }
                },
        decreases vec_map@.len() - i,
    {
        let ghost before = merged@;
        merge_estimates_into(&mut merged, &vec_map[i], reduce);
        proof {
            lemma_merge_extends_collected(vec_map@, i as int, before, merged@, reduce);
        }
        i += 1;
    }
    proof {
        assert(vec_map@.take(vec_map@.len() as int) =~= vec_map@);
    }
    merged
}

/// One merge step extends every action's collected values by at most the
/// freshly merged map's binding, and the fold follows.
proof fn lemma_merge_extends_collected(
    maps: Seq<ActionEstimates>,
    i: int,
    before: Seq<(u64, i64)>,
    after: Seq<(u64, i64)>,
    reduce: EstimateReduce,
)
    requires
        0 <= i < maps.len(),
        forall|j: int| 0 <= j < maps.len() ==> estimates_wf((#[trigger] maps[j])@),
        forall|k: u64| #[trigger]
            assoc_get(before, k) == {
                let col = collected_values(maps.take(i), k);
                if col.len() == 0 {
                    None::<i64>
                } else {
                    Some(fold_reduce(reduce, col) as i64)
                }
            },
        forall|k: u64| #[trigger]
            assoc_get(after, k) == merged_binding(
                reduce,
                assoc_get(before, k),
                assoc_get(maps[i]@, k),
            ),
    ensures
        forall|k: u64| #[trigger]
            assoc_get(after, k) == {
                let col = collected_values(maps.take(i + 1), k);
                if col.len() == 0 {
                    None::<i64>
                } else {
                    Some(fold_reduce(reduce, col) as i64)
                }
            },
{
    assert forall|k: u64| #[trigger]
        assoc_get(after, k) == {
            let col = collected_values(maps.take(i + 1), k);
            if col.len() == 0 {
                None::<i64>
            } else {
                Some(fold_reduce(reduce, col) as i64)
            }
        } by {
        let prefix = maps.take(i);
        let col = collected_values(prefix, k);
        assert(maps.take(i + 1).drop_last() =~= prefix);
        assert(maps.take(i + 1).last() == maps[i]);
        assert forall|j: int| 0 <= j < prefix.len() implies estimates_wf(
            (#[trigger] prefix[j])@,
        ) by {
            assert(prefix[j] == maps[j]);
        }
        lemma_collected_values_bounded(prefix, k);
        match assoc_get(maps[i]@, k) {
            None => {
                assert(collected_values(maps.take(i + 1), k) =~= col);
            },
            Some(v) => {
                let col2 = collected_values(maps.take(i + 1), k);
                assert(col2 =~= col + seq![v]);
                assert(col2.drop_last() =~= col);
                assert(col2.last() == v);
                if col.len() == 0 {
                    assert(col2.len() == 1);
                    assert(fold_reduce(reduce, col2) == v as int);
                } else {
                    lemma_fold_reduce_bounded(reduce, col);
                    assert(fold_reduce(reduce, col2) == spec_reduce(
                        reduce,
                        fold_reduce(reduce, col),
                        v as int,
                    ));
                }
            },
        }
    }
}

/// The value the shared estimates bind for a state and action, if any.
pub open spec fn q_value(q: Seq<(u64, ActionEstimates)>, s: u64, a: u64) -> Option<i64> {
    match assoc_get(q, s) {
        None => None,
        Some(est) => assoc_get(est@, a),
    }
}

/// The values a state and action are bound to across the episode deltas, in
/// delta order.
pub open spec fn collected_state_values(deltas: Seq<StateEstimates>, s: u64, a: u64) -> Seq<i64>
    decreases deltas.len(),
{
    if deltas.len() == 0 {
        Seq::empty()
    } else {
        collected_state_values(deltas.drop_last(), s, a) + match q_value(
            deltas.last()@,
            s,
            a,
        ) {
            Some(v) => seq![v],
            None => Seq::<i64>::empty(),
        }
    }
}

/// The binding after merging a value list onto an existing binding: the
/// fold of the list when it is nonempty, the old binding otherwise.
pub open spec fn folded_binding(
    reduce: EstimateReduce,
    old_binding: Option<i64>,
    col: Seq<i64>,
) -> Option<i64> {
    if col.len() == 0 {
        old_binding
    } else {
        Some(fold_reduce(reduce, col) as i64)
    }
}

/// Every value a state and action collect from well-formed deltas lies in
/// the estimate range.
pub proof fn lemma_collected_state_values_bounded(deltas: Seq<StateEstimates>, s: u64, a: u64)
    requires
        forall|i: int| 0 <= i < deltas.len() ==> state_estimates_wf((#[trigger] deltas[i])@),
    ensures
        forall|i: int|
            0 <= i < collected_state_values(deltas, s, a).len() ==> -MAX_Q
                <= #[trigger] collected_state_values(deltas, s, a)[i] <= MAX_Q,
    decreases deltas.len(),
{
    if deltas.len() > 0 {
        assert forall|i: int| 0 <= i < deltas.drop_last().len() implies state_estimates_wf(
            (#[trigger] deltas.drop_last()[i])@,
        ) by {
            assert(deltas.drop_last()[i] == deltas[i]);
        }
        lemma_collected_state_values_bounded(deltas.drop_last(), s, a);
        let last = deltas.last()@;
        let col_prev = collected_state_values(deltas.drop_last(), s, a);
        let col = collected_state_values(deltas, s, a);
        assert forall|i: int| 0 <= i < col.len() implies -MAX_Q <= #[trigger] col[i] <= MAX_Q by {
            if i < col_prev.len() {
                assert(col[i] == col_prev[i]);
            } else {
                lemma_assoc_index(last, s);
                let est = assoc_get(last, s)->0;
                lemma_assoc_index(est@, a);
                assert(col[i] == q_value(last, s, a)->0);
            }
        }
    }
}

/// Copies an estimate map.
fn copy_estimates(src: &ActionEstimates) -> (r: ActionEstimates)
    ensures
        r@ == src@,
{
    let mut r: ActionEstimates = Vec::new();
    let mut i: usize = 0;
    while i < src.len()
        invariant
            0 <= i <= src@.len(),
            r@ =~= src@.take(i as int),
        decreases src@.len() - i,
    {
        r.push(src[i]);
        proof {
            assert(r@ =~= src@.take(i as int + 1));
        }
        i += 1;
    }
    proof {
        assert(src@.take(src@.len() as int) =~= src@);
    }
    r
}

/// Hands out a mutable reference to the state entry at `i`.
fn state_entry_mut(v: &mut StateEstimates, i: usize) -> (r: &mut (u64, ActionEstimates))
    requires
        i < old(v)@.len(),
    ensures
        *r == old(v)@[i as int],
        final(v)@ == old(v)@.update(i as int, *final(r)),
{
    &mut v[i]
}

impl<L: LearningStrategy, P: PolicyStrategy> Simulator<L, P> {
    /// The strategies and the estimates are well formed.
    pub open spec fn wf(self) -> bool {
        &&& state_estimates_wf(self.q@)
        &&& self.learning_strategy.wf()
    }

    /// Creates a new instance of an MDP simulator.
    pub fn new(learning_strategy: L, policy_strategy: P) -> (r: Simulator<L, P>)
        ensures
            r.q@.len() == 0,
            r.learning_strategy == learning_strategy,
            r.policy_strategy == policy_strategy,
            state_estimates_wf(r.q@),
    {
        Simulator { q: Vec::new(), learning_strategy, policy_strategy }
    }

    /// Returns the learned optimal policy for a state: the greedy action and
    /// its estimate.
    pub fn get_optimal_policy(&self, state: u64) -> (r: Option<(u64, i64)>)
        requires
            self.wf(),
        ensures
            match assoc_get(self.q@, state) {
                Some(est) => if est@.len() == 0 {
                    r is None
                } else {
                    r == Some(
                        (
                            first_argmax(est@),
                            assoc_get(est@, first_argmax(est@))->0,
                        ),
                    )
                },
                None => r is None,
            },
    {
        match assoc_find(&self.q, state) {
            Some(i) => {
                let estimates = &self.q[i].1;
                proof {
                    lemma_assoc_index(self.q@, state);
                }
                match select_greedy(estimates) {
                    Some(action) => {
                        match assoc_find(estimates, action) {
                            Some(j) => {
                                proof {
                                    lemma_assoc_index(estimates@, action);
                                }
                                Some((action, estimates[j].1))
                            },
                            None => None,
                        }
                    },
                    None => None,
                }
            },
            None => None,
        }
    }

    /// Runs one episode per agent, each capped at `max_steps` policy steps,
    /// and merges the per-agent estimate deltas into the shared estimates
    /// through `merge_episode_deltas`: there are well-formed per-agent
    /// deltas such that every state and action observed in one ends bound
    /// to the reduce, in agent order, of the observed values, and every
    /// other binding survives. What each delta holds depends on the agent,
    /// whose trait carries no contract, so the deltas stay existential.
    pub fn run_episodes<A: Agent>(
        &mut self,
        agents: Vec<A>,
        max_steps: usize,
        reduce: EstimateReduce,
        random: &mut Random,
    )
        requires
            old(self).wf(),
        ensures
            final(self).wf(),
            final(self).learning_strategy == old(self).learning_strategy,
            final(self).policy_strategy == old(self).policy_strategy,
            exists|deltas: Seq<StateEstimates>| #[trigger]
                episodes_merged(reduce, old(self).q@, final(self).q@, deltas),
    {
        let mut deltas: Vec<StateEstimates> = Vec::new();
        let mut rest = agents;
        while rest.len() > 0
            invariant
                self.wf(),
                *self == *old(self),
                forall|i: int|
                    0 <= i < deltas@.len() ==> state_estimates_wf((#[trigger] deltas@[i])@),
            decreases rest@.len(),
        {
            let mut agent = rest.remove(0);
            let delta = run_episode(
                &mut agent,
                &self.learning_strategy,
                &self.policy_strategy,
                &self.q,
                max_steps,
                random,
            );
            deltas.push(delta);
        }
        let ghost the_deltas = deltas@;
        merge_episode_deltas(&mut self.q, deltas, reduce);
        proof {
            assert(episodes_merged(reduce, old(self).q@, self.q@, the_deltas));
        }
    }
}

/// Folds one state's estimate delta into a state estimate map: each of the
/// delta's actions is merged into that state's bindings under the reduce
/// policy; every other state keeps its bindings.
fn merge_state_estimates(
    target: &mut StateEstimates,
    state: u64,
    estimates: &ActionEstimates,
    reduce: EstimateReduce,
)
    requires
        state_estimates_wf(old(target)@),
        estimates_wf(estimates@),
    ensures
        state_estimates_wf(final(target)@),
        forall|a: u64| #[trigger]
            q_value(final(target)@, state, a) == merged_binding(
                reduce,
                q_value(old(target)@, state, a),
                assoc_get(estimates@, a),
            ),
        forall|s2: u64, a: u64|
            s2 != state ==> #[trigger] q_value(final(target)@, s2, a) == q_value(
                old(target)@,
                s2,
                a,
            ),
{
    let ghost before = target@;
    match assoc_find(target, state) {
        Some(i) => {
            proof {
                lemma_assoc_index(before, state);
            }
            let entry = state_entry_mut(target, i);
            let ghost entry_before = *entry;
            merge_estimates_into(&mut entry.1, estimates, reduce);
            proof {
                assert(final(entry).0 == state);
                lemma_assoc_set(before, target@, i as int, state, final(entry).1);
                assert(assoc_get(before, state) == Some(entry_before.1));
            }
        },
        None => {
            let copied = copy_estimates(estimates);
            target.push((state, copied));
            proof {
                lemma_assoc_push(before, state, copied);
                assert forall|j: int| 0 <= j < target@.len() implies estimates_wf(
                    (#[trigger] target@[j]).1@,
                ) by {
                    if j < before.len() {
                        assert(target@[j] == before[j]);
                    }
                }
                assert forall|a: u64| #[trigger]
                    q_value(target@, state, a) == merged_binding(
                        reduce,
                        q_value(before, state, a),
                        assoc_get(estimates@, a),
                    ) by {
                    assert(assoc_get(target@, state) == Some(copied));
                    assert(copied@ == estimates@);
                }
            }
        },
    }
}

/// The inner-loop view of a delta's contribution: the value for `(s, a)` of
/// a state entry already processed (its index below `e`), nothing yet for
/// the rest.
spec fn partial_extra(delta: Seq<(u64, ActionEstimates)>, e: int, s: u64, a: u64) -> Seq<i64> {
    if 0 <= assoc_index(delta, s) < e {
        match q_value(delta, s, a) {
            Some(v) => seq![v],
            None => Seq::<i64>::empty(),
        }
    } else {
        Seq::<i64>::empty()
    }
}

/// Merges the episode deltas into the shared estimates: for every state and
/// action bound in at least one delta, the stored value becomes the fold, in
/// delta order, of the observed values under the reduce policy; every other
/// binding keeps its prior value.
#[verifier::loop_isolation(false)]
pub fn merge_episode_deltas(
    q: &mut StateEstimates,
    deltas: Vec<StateEstimates>,
    reduce: EstimateReduce,
)
    requires
        state_estimates_wf(old(q)@),
        forall|i: int| 0 <= i < deltas@.len() ==> state_estimates_wf((#[trigger] deltas@[i])@),
    ensures
        state_estimates_wf(final(q)@),
        forall|s: u64, a: u64| #[trigger]
            q_value(final(q)@, s, a) == folded_binding(
                reduce,
                q_value(old(q)@, s, a),
                collected_state_values(deltas@, s, a),
            ),
{
    // group per state and action: fold the observed values in delta order
    let mut acc: StateEstimates = Vec::new();
    let mut d: usize = 0;
    proof {
        assert forall|s: u64, a: u64| #[trigger]
            q_value(acc@, s, a) == folded_binding(
                reduce,
                None::<i64>,
                collected_state_values(deltas@.take(0int), s, a),
            ) by {}
    }
    while d < deltas.len()
        invariant
            0 <= d <= deltas@.len(),
            state_estimates_wf(acc@),
            forall|s: u64, a: u64| #[trigger]
                q_value(acc@, s, a) == folded_binding(
                    reduce,
                    None::<i64>,
                    collected_state_values(deltas@.take(d as int), s, a),
                ),
        decreases deltas@.len() - d,
    {
        let delta = &deltas[d];
        let ghost base_prefix = deltas@.take(d as int);
        let mut e: usize = 0;
        proof {
            assert forall|s: u64, a: u64| #[trigger]
                q_value(acc@, s, a) == folded_binding(
                    reduce,
                    None::<i64>,
                    collected_state_values(base_prefix, s, a) + partial_extra(delta@, 0, s, a),
                ) by {
                assert(collected_state_values(base_prefix, s, a) + partial_extra(delta@, 0, s, a)
                    =~= collected_state_values(base_prefix, s, a));
            }
        }
        while e < delta.len()
            invariant
                0 <= e <= delta@.len(),
                state_estimates_wf(acc@),
                delta == &deltas@[d as int],
                d < deltas@.len(),
                base_prefix == deltas@.take(d as int),
                forall|s: u64, a: u64| #[trigger]
                    q_value(acc@, s, a) == folded_binding(
                        reduce,
                        None::<i64>,
                        collected_state_values(base_prefix, s, a) + partial_extra(
                            delta@,
                            e as int,
                            s,
                            a,
                        ),
                    ),
            decreases delta@.len() - e,
        {
            let state = delta[e].0;
            let ghost acc_before = acc@;
            proof {
                assert forall|j: int| 0 <= j < e implies (#[trigger] delta@[j]).0 != state by {}
                lemma_assoc_index_from_witness(delta@, state, e as int);
            }
            merge_state_estimates(&mut acc, state, &delta[e].1, reduce);
            proof {
                lemma_delta_entry_step(
                    deltas@,
                    d as int,
                    e as int,
                    acc_before,
                    acc@,
                    reduce,
                );
            }
            e += 1;
        }
        proof {
            assert forall|s: u64, a: u64| #[trigger]
                q_value(acc@, s, a) == folded_binding(
                    reduce,
                    None::<i64>,
                    collected_state_values(deltas@.take(d as int + 1), s, a),
                ) by {
                assert(deltas@.take(d as int + 1).drop_last() =~= base_prefix);
                assert(deltas@.take(d as int + 1).last() == deltas@[d as int]);
                lemma_assoc_index(delta@, s);
                assert(collected_state_values(deltas@.take(d as int + 1), s, a)
                    =~= collected_state_values(base_prefix, s, a) + partial_extra(
                    delta@,
                    delta@.len() as int,
                    s,
                    a,
                ));
            }
        }
        d += 1;
    }
    proof {
        assert(deltas@.take(deltas@.len() as int) =~= deltas@);
    }
    // overwrite every accumulated binding into the shared estimates
    let mut i: usize = 0;
    while i < acc.len()
        invariant
            0 <= i <= acc@.len(),
            state_estimates_wf(q@),
            state_estimates_wf(acc@),
            forall|s: u64, a: u64| #[trigger]
                q_value(acc@, s, a) == folded_binding(
                    reduce,
                    None::<i64>,
                    collected_state_values(deltas@, s, a),
                ),
            forall|s: u64, a: u64| #[trigger]
                q_value(q@, s, a) == (if 0 <= assoc_index(acc@, s) < i {
                    match q_value(acc@, s, a) {
                        Some(v) => Some(v),
                        None => q_value(old(q)@, s, a),
                    }
                } else {
                    q_value(old(q)@, s, a)
                }),
        decreases acc@.len() - i,
    {
        let state = acc[i].0;
        let ghost q_before = q@;
        proof {
            assert forall|j: int| 0 <= j < i implies (#[trigger] acc@[j]).0 != state by {}
            lemma_assoc_index_from_witness(acc@, state, i as int);
            lemma_assoc_index(acc@, state);
            assert(assoc_get(acc@, state) == Some(acc@[i as int].1));
        }
        merge_state_estimates(q, state, &acc[i].1, EstimateReduce::Last);
        proof {
            assert forall|s: u64, a: u64| #[trigger]
                q_value(q@, s, a) == (if 0 <= assoc_index(acc@, s) < i + 1 {
                    match q_value(acc@, s, a) {
                        Some(v) => Some(v),
                        None => q_value(old(q)@, s, a),
                    }
                } else {
                    q_value(old(q)@, s, a)
                }) by {
                if s == state {
                    assert(q_value(q@, s, a) == merged_binding(
                        EstimateReduce::Last,
                        q_value(q_before, s, a),
                        assoc_get(acc@[i as int].1@, a),
                    ));
                    assert(q_value(acc@, s, a) == assoc_get(acc@[i as int].1@, a));
                } else {
                    lemma_assoc_index(acc@, s);
                    if assoc_index(acc@, s) == i {
                        assert(acc@[i as int].0 == s);
                    }
                }
            }
        }
        i += 1;
    }
    proof {
        assert forall|s: u64, a: u64| #[trigger]
            q_value(q@, s, a) == folded_binding(
                reduce,
                q_value(old(q)@, s, a),
                collected_state_values(deltas@, s, a),
            ) by {
            lemma_assoc_index(acc@, s);
            let col = collected_state_values(deltas@, s, a);
            if 0 <= assoc_index(acc@, s) {
                assert(q_value(q@, s, a) == (match q_value(acc@, s, a) {
                    Some(v) => Some(v),
                    None => q_value(old(q)@, s, a),
                }));
            }
        }
    }
}

/// One processed state entry extends the inner-loop contribution view by
/// exactly that state's values.
proof fn lemma_delta_entry_step(
    deltas: Seq<StateEstimates>,
    d: int,
    e: int,
    acc_before: Seq<(u64, ActionEstimates)>,
    acc_after: Seq<(u64, ActionEstimates)>,
    reduce: EstimateReduce,
)
    requires
        0 <= d < deltas.len(),
        forall|i: int| 0 <= i < deltas.len() ==> state_estimates_wf((#[trigger] deltas[i])@),
        0 <= e < deltas[d]@.len(),
        assoc_index(deltas[d]@, deltas[d]@[e].0) == e,
        forall|s: u64, a: u64| #[trigger]
            q_value(acc_before, s, a) == folded_binding(
                reduce,
                None::<i64>,
                collected_state_values(deltas.take(d), s, a) + partial_extra(
                    deltas[d]@,
                    e,
                    s,
                    a,
                ),
            ),
        forall|a: u64| #[trigger]
            q_value(acc_after, deltas[d]@[e].0, a) == merged_binding(
                reduce,
                q_value(acc_before, deltas[d]@[e].0, a),
                assoc_get(deltas[d]@[e].1@, a),
            ),
        forall|s2: u64, a: u64|
            s2 != deltas[d]@[e].0 ==> #[trigger] q_value(acc_after, s2, a) == q_value(
                acc_before,
                s2,
                a,
            ),
    ensures
        forall|s: u64, a: u64| #[trigger]
            q_value(acc_after, s, a) == folded_binding(
                reduce,
                None::<i64>,
                collected_state_values(deltas.take(d), s, a) + partial_extra(
                    deltas[d]@,
                    e + 1,
                    s,
                    a,
                ),
            ),
{
    let delta = deltas[d]@;
    let st = delta[e].0;
    assert forall|s: u64, a: u64| #[trigger]
        q_value(acc_after, s, a) == folded_binding(
            reduce,
            None::<i64>,
            collected_state_values(deltas.take(d), s, a) + partial_extra(delta, e + 1, s, a),
        ) by {
        let base = collected_state_values(deltas.take(d), s, a);
        if s != st {
            lemma_assoc_index(delta, s);
            if assoc_index(delta, s) == e {
                assert(delta[e].0 == s);
            }
            assert(partial_extra(delta, e + 1, s, a) == partial_extra(delta, e, s, a));
        } else {
            assert(assoc_get(delta, st) == Some(delta[e].1));
            assert(q_value(delta, st, a) == assoc_get(delta[e].1@, a));
            assert(partial_extra(delta, e, st, a) =~= Seq::<i64>::empty());
            assert(base + partial_extra(delta, e, st, a) =~= base);
            assert forall|j: int|
                0 <= j < deltas.take(d).len() implies state_estimates_wf(
                (#[trigger] deltas.take(d)[j])@,
            ) by {
                assert(deltas.take(d)[j] == deltas[j]);
            }
            lemma_collected_state_values_bounded(deltas.take(d), s, a);
            match assoc_get(delta[e].1@, a) {
                None => {
                    assert(partial_extra(delta, e + 1, st, a) =~= Seq::<i64>::empty());
                    assert(base + partial_extra(delta, e + 1, st, a) =~= base);
                },
                Some(v) => {
                    let extended = base + partial_extra(delta, e + 1, st, a);
                    assert(extended =~= base.push(v));
                    assert(extended.drop_last() =~= base);
                    assert(extended.last() == v);
                    if base.len() > 0 {
                        lemma_fold_reduce_bounded(reduce, base);
                    }
                },
            }
        }
    }
}

/// Runs a single episode: while the policy offers an action within the step
/// budget, take it, observe the successor's reward and estimates, and update
/// the taken action's value through `apply_learning_update`, whose contract
/// pins the per-step Q-learning rule. Returns the episode's estimate delta,
/// seeded per state from the shared estimates or from the agent's own
/// action estimates; what the agent reports is uncontracted, so the full
/// delta stays unpinned here.
pub fn run_episode<A: Agent, L: LearningStrategy, P: PolicyStrategy>(
    agent: &mut A,
    learning_strategy: &L,
    policy_strategy: &P,
    q: &StateEstimates,
    max_steps: usize,
    random: &mut Random,
) -> (q_new: StateEstimates)
    requires
        learning_strategy.wf(),
        state_estimates_wf(q@),
    ensures
        state_estimates_wf(q_new@),
        max_steps > 0 ==> q_new@.len() >= 1,
{
    let mut q_new: StateEstimates = Vec::new();
    let mut steps: usize = 0;
    while steps < max_steps
        invariant
            state_estimates_wf(q_new@),
            state_estimates_wf(q@),
            learning_strategy.wf(),
            steps > 0 ==> q_new@.len() >= 1,
        decreases max_steps - steps,
    {
        steps += 1;
        let old_state = agent.get_state();
        ensure_actions(&mut q_new, q, old_state, agent);
        let old_idx = match assoc_find(&q_new, old_state) {
            Some(i) => i,
            None => {
                return q_new;
            },
        };
        proof {
            lemma_assoc_index(q_new@, old_state);
        }
        let action = match policy_strategy.select(&q_new[old_idx].1, random) {
            Some(action) => action,
            None => {
                return q_new;
            },
        };
        let old_value = match assoc_find(&q_new[old_idx].1, action) {
            Some(j) => {
                proof {
                    lemma_assoc_index(q_new@[old_idx as int].1@, action);
                }
                q_new[old_idx].1[j].1
            },
            None => 0,
        };

        agent.take_action(action);
        let next_state = agent.get_state();
        let reward_value = clamp_estimate(agent.reward());

        ensure_actions(&mut q_new, q, next_state, agent);
        if assoc_find(&q_new, next_state).is_none() {
            return q_new;
        }
        apply_learning_update(
            &mut q_new,
            learning_strategy,
            old_state,
            action,
            old_value,
            reward_value,
            next_state,
        );
    }
    q_new
}

/// One Q-learning step on the delta: the taken action's value in
/// `old_state` becomes the learning strategy's update from the observed
/// reward, its old value and the successor state's estimates; no other
/// binding moves.
pub fn apply_learning_update<L: LearningStrategy>(
    q_new: &mut StateEstimates,
    learning_strategy: &L,
    old_state: u64,
    action: u64,
    old_value: i64,
    reward_value: i64,
    next_state: u64,
)
    requires
        learning_strategy.wf(),
        state_estimates_wf(old(q_new)@),
        -MAX_Q <= old_value <= MAX_Q,
        -MAX_Q <= reward_value <= MAX_Q,
        assoc_get(old(q_new)@, old_state) is Some,
        assoc_get(old(q_new)@, next_state) is Some,
    ensures
        state_estimates_wf(final(q_new)@),
        q_value(final(q_new)@, old_state, action) == Some(
            learning_strategy.spec_value(
                reward_value as int,
                old_value as int,
                est_max(assoc_get(old(q_new)@, next_state)->0@),
            ) as i64,
        ),
        forall|a2: u64|
            a2 != action ==> #[trigger] q_value(final(q_new)@, old_state, a2) == q_value(
                old(q_new)@,
                old_state,
                a2,
            ),
        forall|s2: u64, a2: u64|
            s2 != old_state ==> #[trigger] q_value(final(q_new)@, s2, a2) == q_value(
                old(q_new)@,
                s2,
                a2,
            ),
{
    let next_idx = match assoc_find(q_new, next_state) {
        Some(i) => i,
        None => {
            proof {
                assert(false);
            }
            0
        },
    };
    proof {
        lemma_assoc_index(q_new@, next_state);
    }
    let next_estimates = copy_estimates(&q_new[next_idx].1);
    let new_value = learning_strategy.value(reward_value, old_value, &next_estimates);

    let ghost before = q_new@;
    match assoc_find(q_new, old_state) {
        Some(i) => {
            proof {
                lemma_assoc_index(before, old_state);
            }
            let entry = state_entry_mut(q_new, i);
            estimates_set(&mut entry.1, action, new_value);
            proof {
                assert(final(entry).0 == old_state);
                lemma_assoc_set(before, q_new@, i as int, old_state, final(entry).1);
            }
        },
        None => {
            proof {
                assert(false);
            }
        },
    }
}

/// Seeds the delta's entry for `state`: an existing entry is never
/// overwritten; otherwise the shared estimates are copied when they know the
/// state, else the agent's own action estimates are taken, deduplicated and
/// clamped to the supported range.
fn ensure_actions<A: Agent>(
    q_new: &mut StateEstimates,
    q: &StateEstimates,
    state: u64,
    agent: &A,
)
    requires
        state_estimates_wf(old(q_new)@),
        state_estimates_wf(q@),
    ensures
        state_estimates_wf(final(q_new)@),
        assoc_get(final(q_new)@, state) is Some,
        assoc_get(old(q_new)@, state) is Some ==> final(q_new)@ == old(q_new)@,
        assoc_get(old(q_new)@, state) is None && assoc_get(q@, state) is Some ==> assoc_get(
            final(q_new)@,
            state,
        )->0@ == assoc_get(q@, state)->0@,
        forall|other: u64|
            other != state ==> assoc_get(final(q_new)@, other) == assoc_get(old(q_new)@, other),
{
    let ghost before = q_new@;
    if let Some(_) = assoc_find(q_new, state) {
        proof {
            lemma_assoc_index(before, state);
        }
        return ;
    }
    let estimates = match assoc_find(q, state) {
        Some(i) => {
            proof {
                lemma_assoc_index(q@, state);
            }
            copy_estimates(&q[i].1)
        },
        None => {
            let raw = agent.get_actions(state);
            let mut cleaned: ActionEstimates = Vec::new();
            let mut i: usize = 0;
            while i < raw.len()
                invariant
                    0 <= i <= raw@.len(),
                    estimates_wf(cleaned@),
                decreases raw@.len() - i,
            {
                let value = clamp_estimate(raw[i].1);
                estimates_set(&mut cleaned, raw[i].0, value);
                i += 1;
            }
            cleaned
        },
    };
    q_new.push((state, estimates));
    proof {
        lemma_assoc_push(before, state, estimates);
        assert forall|j: int| 0 <= j < q_new@.len() implies estimates_wf(
            (#[trigger] q_new@[j]).1@,
        ) by {
            if j < before.len() {
                assert(q_new@[j] == before[j]);
            } else {
                if assoc_index(q@, state) >= 0 {
                    lemma_assoc_index(q@, state);
                }
            }
        }
    }
}

} // verus!