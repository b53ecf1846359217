//! A weighted choice over a continuous value: the companion of the
//! deterministic weighted index, kept as an independent entry point with its
//! own error type for callers that bring their own value in `[0, 1]`.

use vstd::prelude::*;

use super::deterministic_weighted_index::DeterministicWeightedIndex;
use crate::SELECTOR_SCALE;
use crate::sum_of;

verus! {

/// A weighted choice operation failed: `new` rejects weights that are
/// empty, weigh nothing in total, or weigh more than the cumulative-weight
/// arithmetic carries, and `get` rejects a value outside
/// `[0, SELECTOR_SCALE]`; the contracts of the two say exactly which inputs
/// fail.
#[derive(Clone, Copy, Debug, PartialEq, Eq, Structural)]
pub struct WeightedChoiceError {}

/// Maps a fixed-point value in `[0, SELECTOR_SCALE]` to the weighted bucket
/// that covers it.
pub struct WeightedChoice {
    pub index: DeterministicWeightedIndex,
}

impl WeightedChoice {
    pub open spec fn wf(self) -> bool {
        self.index.wf()
    }

    /// Builds the choice over a weight vector.  Fails exactly when the
    /// vector is empty, weighs nothing in total, or weighs more than a
    /// `u64` carries: the invalid-weights condition.
    pub fn new(weights: Vec<u32>) -> (r: Result<WeightedChoice, WeightedChoiceError>)
        ensures
            (r is Ok) <==> (weights@.len() > 0 && 0 < sum_of(weights@) <= u64::MAX),
            r matches Ok(c) ==> {
                &&& c.wf()
                &&& c.index.cumulative_weights@.len() == weights@.len()
                &&& c.index.total as int == sum_of(weights@)
                &&& forall|i: int|
                    0 <= i < weights@.len() ==> c.index.cumulative_weights@[i] as int == sum_of(
                        weights@.take(i + 1),
                    )
            },
    {
        match DeterministicWeightedIndex::new(weights) {
            Ok(index) => Ok(WeightedChoice { index }),
            Err(_) => Err(WeightedChoiceError {}),
        }
    }

    /// Resolves a value to its bucket: the smallest index whose cumulative
    /// weight fraction is at least the value.  Fails exactly when the value
    /// exceeds `SELECTOR_SCALE`: the out-of-range condition.
    pub fn get(&self, at: u32) -> (r: Result<usize, WeightedChoiceError>)
        requires
            self.wf(),
        ensures
            (r is Ok) <==> at <= SELECTOR_SCALE,
            r matches Ok(i) ==> i as int == self.index.spec_sample(at as int) && i
                < self.index.len(),
    {
        match self.index.sample(at) {
            Ok(i) => Ok(i),
            Err(_) => Err(WeightedChoiceError {}),
        }
    }
}

} // verus!
