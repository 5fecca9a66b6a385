//! A deterministic pseudo-random source. One seeded generator is threaded
//! through every stochastic operator, so that a run is reproducible from its
//! seed alone.

use vstd::prelude::*;

verus! {

/// Granularity of probabilities: a probability is given in basis points,
/// `0` never hits and `PROBABILITY_SCALE` always hits.
pub const PROBABILITY_SCALE: u32 = 10000;

/// The xorshift step of the generator.
pub open spec fn spec_next(s: u64) -> u64 {
    let a = s ^ (s << 13);
    let b = a ^ (a >> 7);
    b ^ (b << 17)
}

/// A pseudo-random generator with a 64-bit xorshift state.
#[derive(Clone, Copy, PartialEq, Eq, Structural, Debug)]
pub struct Random {
    pub state: u64,
}

impl Random {
    /// Seeds the generator; a zero seed is replaced by a fixed odd constant,
    /// since the all-zero state is a fixed point of the step function.
    pub fn new(seed: u64) -> (r: Random)
        ensures
            r.state == if seed == 0 {
                0x9E3779B97F4A7C15u64
            } else {
                seed
            },
    {
        Random { state: if seed == 0 { 0x9E3779B97F4A7C15u64 } else { seed } }
    }

    /// Draws the next word and advances the state.
    pub fn next_u64(&mut self) -> (r: u64)
        ensures
            final(self).state == spec_next(old(self).state),
            r == final(self).state,
    {
        let mut x = self.state;
        x = x ^ (x << 13);
        x = x ^ (x >> 7);
        x = x ^ (x << 17);
        self.state = x;
        x
    }

    /// Draws once and reports whether the draw falls under `probability`
    /// basis points.
    pub fn is_hit(&mut self, probability: u32) -> (r: bool)
        ensures
            final(self).state == spec_next(old(self).state),
            r == (spec_next(old(self).state) % (PROBABILITY_SCALE as u64) < probability as u64),
    {
        let draw = self.next_u64();
        draw % (PROBABILITY_SCALE as u64) < probability as u64
    }

    /// Draws a value in `[min, max)`.
    pub fn next_in_range(&mut self, min: usize, max: usize) -> (r: usize)
        requires
            min < max,
        ensures
            final(self).state == spec_next(old(self).state),
            min <= r < max,
            r == min + spec_next(old(self).state) as int % (max - min),
    {
        let draw = self.next_u64();
        let span = (max - min) as u64;
        let offset = (draw % span) as usize;
        min + offset
    }
}

} // verus!
