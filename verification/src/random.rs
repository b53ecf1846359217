//! Randomness, as an explicit source threaded through every stochastic draw.
//!
//! A generation pass owns one `RandomSource`; nothing else in the library
//! consumes entropy.  The weighted-random index over a region's catalog items
//! is rand's `WeightedIndex`, held behind contracts that state what every
//! draw satisfies, never which draw comes.

use vstd::prelude::*;

use crate::sum_of;
use rand::Rng;
use rand::SeedableRng;

verus! {

#[verifier::external_type_specification]
#[verifier::external_body]
pub struct ExStdRng(rand::rngs::StdRng);

/// An explicit source of randomness for one generation pass.
pub struct RandomSource {
    rng: rand::rngs::StdRng,
}

impl RandomSource {
    /// Relies on rand's `SeedableRng::from_entropy`: a `StdRng` freshly
    /// seeded from the operating system.
    #[verifier::external_body]
    pub fn new() -> (r: RandomSource) {
        RandomSource { rng: rand::rngs::StdRng::from_entropy() }
    }

    /// Relies on rand's `Rng::gen_range` on `0..bound`: a value drawn
    /// uniformly below the bound.
    #[verifier::external_body]
    pub fn gen_below(&mut self, bound: usize) -> (r: usize)
        requires
            bound >= 1,
        ensures
            r < bound,
    {
        self.rng.gen_range(0..bound)
    }
}

/// A weighted-random index over `u32` weights: rand's `WeightedIndex`, held
/// opaquely.
#[verifier::external_body]
pub struct RandomWeightedIndex {
    inner: rand::distributions::WeightedIndex<u32>,
}

/// The weights a `RandomWeightedIndex` was built over.
pub uninterp spec fn weights_of(w: RandomWeightedIndex) -> Seq<u32>;

/// Relies on rand's `WeightedIndex::new`: it fails exactly on an empty weight
/// list or an all-zero total, and otherwise draws over the given weights.
/// The total must fit the weight type, since `new` sums the weights in it.
#[verifier::external_body]
pub fn weighted_index_new(weights: &Vec<u32>) -> (r: Option<RandomWeightedIndex>)
    requires
        sum_of(weights@) <= u32::MAX,
    ensures
        (r is Some) <==> (weights@.len() > 0 && sum_of(weights@) > 0),
        r matches Some(w) ==> weights_of(w) == weights@,
{
    match rand::distributions::WeightedIndex::new(weights.iter().copied()) {
        Ok(inner) => Some(RandomWeightedIndex { inner }),
        Err(_) => None,
    }
}

/// Relies on rand's `WeightedIndex` draw (`Distribution::sample`): the drawn
/// index always lies within the weights and carries a positive weight.
#[verifier::external_body]
pub fn weighted_index_sample(w: &RandomWeightedIndex, source: &mut RandomSource) -> (i: usize)
    ensures
        i < weights_of(*w).len(),
        weights_of(*w)[i as int] > 0,
{
    rand::distributions::Distribution::sample(&w.inner, &mut source.rng)
}

} // verus!
