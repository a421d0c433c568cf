use vstd::prelude::*;

verus! {

/// A source of pseudo-random draws, injected into the generator so that
/// generation stays pure and testable with deterministic sources.
pub trait RandomSource {
    /// Draws a value below `bound`.
    fn pick(&mut self, bound: u64) -> (r: u64)
        requires
            bound >= 1,
        ensures
            r < bound,
    ;
}

/// A linear congruential pseudo-random generator.
pub struct Lcg {
    pub state: u64,
}

impl Lcg {
    /// Seeds the generator.
    pub fn new(seed: u64) -> (r: Lcg)
        ensures
            r.state == seed,
    {
        Lcg { state: seed }
    }
}

impl RandomSource for Lcg {
    fn pick(&mut self, bound: u64) -> (r: u64) {
        self.state = self.state.wrapping_mul(6364136223846793005).wrapping_add(
            1442695040888963407,
        );
        (self.state >> 33) % bound
    }
}

/// A source that always answers with the same draw, clamped below the
/// bound; with value zero it always picks the first choice offered.
pub struct ConstantSource {
    pub value: u64,
}

impl RandomSource for ConstantSource {
    fn pick(&mut self, bound: u64) -> (r: u64) {
        if self.value < bound {
            self.value
        } else {
            bound - 1
        }
    }
}

} // verus!
