//! Sampling of a uniformly random field element.
//!
//! The protocol draws r uniformly from the whole field {0, ..., p-1},
//! matching the classical analysis (a draw of r = 0 makes the check
//! trivially accept and is charged to the error bound, not excluded).
//! The generator state is a `StdRng`, seeded either from the operating
//! system (production) or from a caller-supplied seed (reproducible runs).

use vstd::prelude::*;
use crate::field::FieldElement;
use crate::field::FqConfig;
use ark_std::rand::rngs::StdRng;
use ark_std::rand::Rng;
use ark_std::rand::SeedableRng;

verus! {

#[verifier::external_type_specification]
#[verifier::external_body]
pub struct ExStdRng(StdRng);

/// Relies on rand::SeedableRng::from_entropy: a generator freshly seeded
/// from the operating system's entropy source. Nothing can be promised of
/// its state.
#[verifier::external_body]
fn entropy_rng() -> StdRng {
    StdRng::from_entropy()
}

/// Relies on rand::SeedableRng::seed_from_u64: a generator whose state is
/// a pure function of the seed, so runs with equal seeds draw equal values.
#[verifier::external_body]
fn seeded_rng(seed: u64) -> StdRng {
    StdRng::seed_from_u64(seed)
}

/// Relies on rand::Rng::gen_range over the range 0..p: the draw is uniform
/// in that range and in particular always below p; the call panics iff the
/// range is empty, which p >= 1 rules out.
#[verifier::external_body]
fn rng_below(rng: &mut StdRng, p: u64) -> (r: u64)
    requires
        p >= 1,
    ensures
        r < p,
{
    rng.gen_range(0..p)
}

/// A source of uniformly random field elements. Each verification call
/// owns its sampler; no state is shared across threads.
pub struct RandomSampler {
    rng: StdRng,
}

impl RandomSampler {
    /// A sampler seeded from the operating system, for production draws.
    pub fn new() -> RandomSampler {
        RandomSampler { rng: entropy_rng() }
    }

    /// A sampler with an injected seed: deterministic, for reproducible
    /// test runs.
    pub fn from_seed(seed: u64) -> RandomSampler {
        RandomSampler { rng: seeded_rng(seed) }
    }

    /// Draw a field element uniformly from the whole field {0, ..., p-1}.
    pub fn sample(&mut self, cfg: &FqConfig) -> (e: FieldElement)
        requires
            cfg.wf(),
        ensures
            e.wf(),
            e.spec_modulus() == cfg.spec_modulus(),
    {
        let r: u64 = rng_below(&mut self.rng, cfg.modulus());
        FieldElement::from_u64(r, cfg)
    }
}

} // verus!
