//! The source of randomness of one invocation: made once, from a seed where
//! the run is to be repeatable, and handed to the one stage that draws from
//! it.

use vstd::prelude::*;
use rand::rngs::{OsRng, StdRng};
use rand::SeedableRng;

verus! {

/// `rand::rngs::StdRng`, the generator. It is made here and handed on;
/// nothing is known of what it holds, and nothing here draws from it.
#[verifier::external_type_specification]
#[verifier::external_body]
pub struct ExStdRng(StdRng);

/// The generator that `StdRng::seed_from_u64` gives for a seed. It depends
/// on the seed alone: the same seed gives an equal generator, and so the
/// same draws, in every run.
pub uninterp spec fn seeded(seed: u64) -> StdRng;

/// `StdRng::seed_from_u64`: the generator that a 64-bit seed gives, which is
/// the same for the same seed. Nothing else is stated of it.
#[verifier::external_body]
fn seeded_generator(seed: u64) -> (generator: StdRng)
    ensures
        generator == seeded(seed),
{
    StdRng::seed_from_u64(seed)
}

/// `StdRng::from_rng` on `OsRng`: a generator seeded from the entropy of the
/// operating system, or nothing where that gave an error. Nothing is stated
/// of the generator: two calls give two different ones.
#[verifier::external_body]
fn entropy_generator() -> Option<StdRng> {
    StdRng::from_rng(OsRng).ok()
}

/// The random generator of one invocation, with the seed it was made from.
/// It cannot be copied: whoever draws from it owns it.
pub struct RngState {
    seed: Option<u64>,
    generator: StdRng,
}

impl RngState {
    /// The seed that the generator was made from; none where it was seeded
    /// from entropy.
    pub closed spec fn spec_seed(&self) -> Option<u64> {
        self.seed
    }

    /// The seed that the generator was made from.
    pub fn seed(&self) -> (seed: Option<u64>)
        ensures
            seed == self.spec_seed(),
    {
        self.seed
    }

    /// True when a run with this generator can be repeated: when it was made
    /// from a seed.
    pub fn is_reproducible(&self) -> (fixed: bool)
        ensures
            fixed == self.spec_seed() is Some,
    {
        self.seed.is_some()
    }

    /// The generator that the state holds.
    pub closed spec fn spec_generator(&self) -> StdRng {
        self.generator
    }

    /// Hands the generator to the stage that draws from it.
    pub fn into_generator(self) -> (generator: StdRng)
        ensures
            generator == self.spec_generator(),
    {
        self.generator
    }
}

/// The state for a seed and the generator that entropy gave, where a
/// generator from entropy was asked for: with a seed the state holds the
/// generator of that seed, whatever entropy gave; without one it holds the
/// generator from entropy, and there is no state where entropy gave none.
pub fn provide(seed: Option<u64>, drawn: Option<StdRng>) -> (state: Option<RngState>)
    ensures
        state is Some <==> (seed is Some || drawn is Some),
        state matches Some(made) ==> made.spec_seed() == seed,
        seed matches Some(fixed) ==> (state matches Some(made) ==> made.spec_generator() == seeded(
            fixed,
        )),
        seed is None ==> (state matches Some(made) ==> drawn == Some(made.spec_generator())),
{
    match seed {
        Some(fixed) => Some(RngState { seed, generator: seeded_generator(fixed) }),
        None => match drawn {
            Some(generator) => Some(RngState { seed, generator }),
            None => None,
        },
    }
}

/// The random generator of an invocation. With a seed it is always made, and
/// it is the generator of that seed; without one it is seeded from the
/// entropy of the operating system, and there is none where that fails.
pub fn provider(seed: Option<u64>) -> (state: Option<RngState>)
    ensures
        seed is Some ==> state is Some,
        state matches Some(made) ==> made.spec_seed() == seed,
        seed matches Some(fixed) ==> (state matches Some(made) ==> made.spec_generator() == seeded(
            fixed,
        )),
{
    match seed {
        Some(_) => provide(seed, None),
        None => provide(seed, entropy_generator()),
    }
}

/// Two states made from the same seed hold the same generator: what is
/// drawn in a run with a seed does not differ from run to run.
pub proof fn lemma_same_seed_same_generator(first: RngState, second: RngState, seed: u64)
    requires
        first.spec_generator() == seeded(seed),
        second.spec_generator() == seeded(seed),
    ensures
        first.spec_generator() == second.spec_generator(),
{
}

} // verus!
