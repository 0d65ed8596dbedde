//! The random number generator that drives merge outcomes.
//!
//! A [`SimRng`] holds `rand`'s standard generator together with two ghost
//! values: the 32-byte key it was made from (`StdRng::from_seed`'s argument,
//! which both ways of making one end in) and how many random words it has
//! handed out. A generator's stream is fixed by its key, so each roll is named
//! as a function of the key, the roll's position in the stream and its ratio.
use rand::rngs::StdRng;
use rand::RngExt;
use rand::SeedableRng;
use vstd::prelude::*;

verus! {

/// `rand`'s standard generator, carried through verified code as an opaque value.
#[verifier::external_type_specification]
#[verifier::external_body]
pub struct ExStdRng(rand::rngs::StdRng);

/// A generator for simulations: only the functions of this module touch it.
pub struct SimRng {
    rng: StdRng,
    key: Ghost<Seq<u8>>,
    drawn: Ghost<nat>,
}

impl SimRng {
    /// The key the generator's stream comes from (`StdRng::from_seed`'s argument).
    pub closed spec fn key(&self) -> Seq<u8> {
        self.key@
    }

    /// How many 64-bit words the generator has handed out so far.
    pub closed spec fn drawn(&self) -> nat {
        self.drawn@
    }

    /// A generator seeded from `seed`, or by the operating system when there
    /// is no seed, at the start of its stream.
    pub fn new(seed: Option<u64>) -> (r: SimRng)
        ensures
            seed matches Some(s) ==> r.key() == seed_key(s),
            r.drawn() == 0,
    {
        match seed {
            Some(s) => seeded_rng(s),
            None => entropy_rng(),
        }
    }
}

/// The 32 bytes `StdRng::seed_from_u64(seed)` hands to `StdRng::from_seed`
/// (the seed expanded with PCG32).
pub uninterp spec fn seed_key(seed: u64) -> Seq<u8>;

/// What `random_ratio(numerator, denominator)` returns on a generator made by
/// `StdRng::from_seed(key)` that has handed out `index` words before: the word
/// at `index` of the key's stream compared with the ratio's threshold.
pub uninterp spec fn ratio_draw(key: Seq<u8>, index: nat, numerator: u32, denominator: u32) -> bool;

/// Calls `StdRng::seed_from_u64`, which (`rand_core`'s default, which `StdRng`
/// keeps) expands `seed` into 32 bytes and calls `StdRng::from_seed` with them.
/// The generator starts at the beginning of that key's stream.
#[verifier::external_body]
fn seeded_rng(seed: u64) -> (r: SimRng)
    ensures
        r.key() == seed_key(seed),
        r.drawn() == 0,
{
    SimRng { rng: StdRng::seed_from_u64(seed), key: Ghost(seed_key(seed)), drawn: Ghost(0) }
}

/// Calls `StdRng::from_rng` on `rand::rng()`, the thread-local generator seeded
/// by the operating system: `from_rng` fills 32 bytes from it and calls
/// `StdRng::from_seed` with them. Which bytes is not stated; the generator
/// starts at the beginning of their stream.
#[verifier::external_body]
fn entropy_rng() -> (r: SimRng)
    ensures
        r.drawn() == 0,
{
    let mut thread_rng = rand::rng();
    SimRng { rng: StdRng::from_rng(&mut thread_rng), key: Ghost(arbitrary()), drawn: Ghost(0) }
}

/// Calls `RngExt::random_ratio`: `true` with probability `numerator / denominator`.
/// The source (`Bernoulli::from_ratio` and its `sample`) shows that equal
/// arguments give `true` without drawing; otherwise one word is drawn and
/// compared with a threshold fixed by the ratio, which is zero for a zero
/// numerator. It panics when `denominator` is zero or below `numerator`, which
/// `requires` rules out.
#[verifier::external_body]
pub(crate) fn random_ratio(rng: &mut SimRng, numerator: u32, denominator: u32) -> (r: bool)
    requires
        0 < denominator,
        numerator <= denominator,
    ensures
        final(rng).key() == old(rng).key(),
        numerator == denominator ==> r && final(rng).drawn() == old(rng).drawn(),
        numerator < denominator ==> final(rng).drawn() == old(rng).drawn() + 1,
        numerator == 0 ==> !r,
        numerator < denominator ==> r == ratio_draw(
            old(rng).key(),
            old(rng).drawn(),
            numerator,
            denominator,
        ),
{
    rng.rng.random_ratio(numerator, denominator)
}

} // verus!
