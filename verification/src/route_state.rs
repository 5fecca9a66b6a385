//! Per-route cache of derived state: a two-level mapping from
//! `(state_key, activity index)` to a scalar. State keys are small integers
//! handed out in advance; the cache is invalidated on structural change and
//! recomputed by a constraint module's `accept_route_state` pass.

use vstd::prelude::*;

use crate::common::MAX_STATE_VALUE;
use crate::models::Route;
use crate::MAX_ACTIVITIES;

verus! {

/// Largest state key the cache accepts; keys are dense small integers.
pub const MAX_STATE_KEY: i32 = 64;

/// The state cache of one route: `slots[key][activity]` holds the cached
/// scalar for that state key and activity index, when present.
#[derive(Clone, PartialEq, Eq, Debug)]
pub struct RouteState {
    slots: Vec<Vec<Option<i64>>>,
}

impl RouteState {
    /// The cached value for `(key, activity)`, or `None`.
    pub closed spec fn spec_get(self, key: int, activity: int) -> Option<i64> {
        if 0 <= key < self.slots@.len() && 0 <= activity < self.slots@[key]@.len() {
            self.slots@[key]@[activity]
        } else {
            None
        }
    }

    /// Every cached value lies within the supported state range.
    pub open spec fn wf(self) -> bool {
        forall|k: int, a: int|
            (#[trigger] self.spec_get(k, a)) is Some ==> -MAX_STATE_VALUE <= self.spec_get(
                k,
                a,
            )->0 <= MAX_STATE_VALUE
    }

    /// Builds an empty cache.
    pub fn new() -> (r: RouteState)
        ensures
            r.wf(),
            forall|k: int, a: int| #[trigger] r.spec_get(k, a) is None,
    {
        RouteState { slots: Vec::new() }
    }

    /// Reads the cached value for `(key, activity)`.
    pub fn get_activity_state(&self, key: i32, activity: usize) -> (r: Option<i64>)
        ensures
            r == self.spec_get(key as int, activity as int),
    {
        if key >= 0 && (key as usize) < self.slots.len() {
            let row = &self.slots[key as usize];
            if activity < row.len() {
                row[activity]
            } else {
                None
            }
        } else {
            None
        }
    }

    /// Caches `value` for `(key, activity)`, leaving every other entry as it
    /// was.
    pub fn put_activity_state(&mut self, key: i32, activity: usize, value: i64)
        requires
            old(self).wf(),
            0 <= key < MAX_STATE_KEY,
            activity < MAX_ACTIVITIES,
            -MAX_STATE_VALUE <= value <= MAX_STATE_VALUE,
        ensures
            final(self).wf(),
            final(self).spec_get(key as int, activity as int) == Some(value),
            forall|k: int, a: int|
                (k, a) != (key as int, activity as int) ==> #[trigger] final(self).spec_get(k, a)
                    == old(self).spec_get(k, a),
    {
        let ghost old_state = *self;
        while self.slots.len() <= key as usize
            invariant
                key >= 0,
                forall|i: int|
                    0 <= i < self.slots@.len() && i < old_state.slots@.len()
                        ==> #[trigger] self.slots@[i] == old_state.slots@[i],
                forall|i: int|
                    old_state.slots@.len() <= i < self.slots@.len()
                        ==> #[trigger] self.slots@[i]@.len() == 0,
                old_state.slots@.len() <= self.slots@.len() || self.slots@ == old_state.slots@,
            decreases key as usize + 1 - self.slots@.len(),
        {
            self.slots.push(Vec::new());
        }
        let ghost grown = *self;
        assert(forall|k: int, a: int| #[trigger]
            grown.spec_get(k, a) == old_state.spec_get(k, a));
        let row = &mut self.slots[key as usize];
        let ghost old_row = *row;
        while row.len() <= activity
            invariant
                forall|i: int|
                    0 <= i < row@.len() ==> #[trigger] row@[i] == if i < old_row@.len() {
                        old_row@[i]
                    } else {
                        None::<i64>
                    },
                old_row@.len() <= row@.len() || row@ == old_row@,
            decreases activity + 1 - row@.len(),
        {
            row.push(None);
        }
        row.set(activity, Some(value));
        assert forall|k: int, a: int| (k, a) != (key as int, activity as int) implies #[trigger] self
            .spec_get(k, a) == old_state.spec_get(k, a) by {
            assert(grown.spec_get(k, a) == old_state.spec_get(k, a));
        }
        assert forall|k: int, a: int| (#[trigger] self.spec_get(k, a)) is Some implies
            -MAX_STATE_VALUE <= self.spec_get(k, a)->0 <= MAX_STATE_VALUE by {
            if (k, a) != (key as int, activity as int) {
                assert(self.spec_get(k, a) == old_state.spec_get(k, a));
            }
        }
    }
}

/// A route together with its derived state cache.
#[derive(Clone, PartialEq, Eq, Debug)]
pub struct RouteContext {
    pub route: Route,
    pub state: RouteState,
}

impl RouteContext {
    /// Route and cache are well formed.
    pub open spec fn wf(self) -> bool {
        &&& self.route.wf()
        &&& self.state.wf()
    }

    /// Builds a context for `route` with an empty cache.
    pub fn new(route: Route) -> (r: RouteContext)
        ensures
            r.route == route,
            r.state.wf(),
            forall|k: int, a: int| #[trigger] r.state.spec_get(k, a) is None,
    {
        RouteContext { route, state: RouteState::new() }
    }
}

} // verus!
