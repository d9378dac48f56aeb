//! A deterministic, seedable source of uniform samples.
//!
//! The renderer owns an explicit generator value instead of drawing from
//! a process-wide source, so a render is a pure function of scene,
//! camera and seed, and tests are reproducible.

use crate::scalar::SCALE;
use crate::scalar::Scalar;
use vstd::prelude::*;

verus! {

/// Multiplier of the linear congruential step.
pub const RNG_MUL: u64 = 6364136223846793005;

/// Increment of the linear congruential step.
pub const RNG_INC: u64 = 1442695040888963407;

/// A pseudo-random generator state.
#[derive(Clone, Copy, Debug, PartialEq, Eq, Structural)]
pub struct Rng {
    pub state: u64,
}

/// One step of the linear congruential recurrence, modulo the word size.
pub open spec fn spec_rng_next(s: u64) -> u64 {
    vstd::wrapping::u64_specs::wrapping_add(vstd::wrapping::u64_specs::wrapping_mul(s, RNG_MUL), RNG_INC)
}

/// The uniform value in `[0, 1)` drawn by one step from state `s`.
pub open spec fn spec_unit_scalar(s: u64) -> Scalar {
    Scalar { units: (spec_rng_next(s) % (SCALE as u64)) as i64 }
}

impl Rng {
    /// A generator starting from the given seed.
    pub fn new(seed: u64) -> (r: Rng)
        ensures
            r.state == seed,
    {
        Rng { state: seed }
    }

    /// Advances the generator one step and returns a uniform fixed-point
    /// value in `[0, 1)`.
    pub fn next_unit(&mut self) -> (r: Scalar)
        ensures
            final(self).state == spec_rng_next(old(self).state),
            r == spec_unit_scalar(old(self).state),
            0 <= r.units < SCALE,
    {
        self.state = self.state.wrapping_mul(RNG_MUL).wrapping_add(RNG_INC);
        Scalar { units: (self.state % (SCALE as u64)) as i64 }
    }
}

} // verus!
