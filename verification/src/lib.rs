//! Core engine of a vehicle routing problem (VRP) metaheuristic solver.
//!
//! The crate is organised around three subsystems:
//! - the constraint evaluation core, in particular the time-window/schedule
//!   constraint with its precomputed per-route state (`timing`);
//! - the hyper-heuristic mutation engine composing ruin-and-recreate and
//!   local-search operators (`mutation`, `hyper`);
//! - a reinforcement-learning parameter selector: an MDP simulator with
//!   Q-learning agents (`mdp`).
//!
//! All times, durations and costs are integer quantities, bounded by the
//! constants in `common`, so that every scheduling computation is exact and
//! provably free of overflow.

pub mod common;
pub mod hyper;
pub mod insertion;
pub mod limits;
pub mod mdp;
pub mod models;
pub mod mutation;
pub mod oracles;
pub mod random;
pub mod route_state;
pub mod solution;
pub mod timing;

use vstd::prelude::*;

verus! {

/// Total number of activities the engine accepts in one tour.
pub const MAX_ACTIVITIES: usize = 0x10_0000;

} // verus!
