//! The one-entry cache of the Perlin generator: building a generator fills a
//! 256-entry permutation table, so the last one is kept and rebuilt only when
//! the seed changes.

use vstd::prelude::*;
use noise::Perlin;

verus! {

/// The Perlin noise generator of the `noise` crate.
#[verifier::external_type_specification]
#[verifier::external_body]
pub struct ExPerlin(noise::Perlin);

/// The generator that `noise::Perlin::new` builds for a seed. Its permutation
/// table is drawn from a generator seeded with that seed alone, so the same
/// seed always gives the same generator.
pub uninterp spec fn perlin_for(seed: u32) -> Perlin;

/// Calls `noise::Perlin::new`, which builds the generator for a seed: it is
/// claimed to be `perlin_for(seed)`, the generator of that seed.
#[verifier::external_body]
fn perlin_new(seed: u32) -> (p: Perlin)
    ensures
        p == perlin_for(seed),
{
    Perlin::new(seed)
}

/// The last generator built, with the seed it was built for.
pub struct PerlinCache {
    seed: u32,
    perlin: Perlin,
}

impl PerlinCache {
    /// The held generator is always the one of the held seed.
    #[verifier::type_invariant]
    spec fn holds_generator_of_seed(self) -> bool {
        self.perlin == perlin_for(self.seed)
    }

    /// The seed of the held generator.
    pub closed spec fn cached_seed(self) -> u32 {
        self.seed
    }

    /// The held generator.
    pub closed spec fn generator(self) -> Perlin {
        self.perlin
    }

    /// A cache holding the generator of seed 0.
    pub fn new() -> (c: Self)
        ensures
            c.cached_seed() == 0,
            c.generator() == perlin_for(0),
    {
        PerlinCache { seed: 0, perlin: perlin_new(0) }
    }

    /// The seed of the held generator.
    pub fn seed(&self) -> (s: u32)
        ensures
            s == self.cached_seed(),
    {
        self.seed
    }
}

/// The generator for `seed`: the cached one when the seed is unchanged (the
/// cache is then left as it was), otherwise a new one, which replaces it in the
/// cache.
pub fn cached_perlin(cache: &mut PerlinCache, seed: u32) -> (p: Perlin)
    ensures
        p == perlin_for(seed),
        final(cache).cached_seed() == seed,
        final(cache).generator() == p,
        old(cache).cached_seed() == seed ==> *final(cache) == *old(cache),
{
    proof {
        use_type_invariant(&*cache);
    }
    if cache.seed != seed {
        *cache = PerlinCache { seed, perlin: perlin_new(seed) };
    }
    cache.perlin
}

} // verus!
