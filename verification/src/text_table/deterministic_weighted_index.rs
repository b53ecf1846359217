//! The deterministic weighted index: partitions the selector range `[0, 1]`
//! (carried as fixed-point integers in `[0, SELECTOR_SCALE]`) into contiguous
//! weight-proportional buckets, so that a continuous selector value resolves
//! to a discrete weighted choice without consuming entropy: the same value
//! always yields the same index.
//!
//! The bucket test `value / SELECTOR_SCALE <= cumulative / total` is carried
//! out with both sides cleared of denominators, so every comparison is exact.

use vstd::prelude::*;

use crate::SELECTOR_SCALE;
use crate::lemma_sum_of_take_le;
use crate::lemma_sum_of_take_mono;
use crate::lemma_sum_of_take_step;
use crate::sum_of;

verus! {

/// A deterministic weighted index operation failed: `new` rejects weights
/// that are empty, weigh nothing in total, or weigh more than the
/// cumulative-weight arithmetic carries, and `sample` rejects a selector
/// value outside `[0, SELECTOR_SCALE]`; the contracts of the two say
/// exactly which inputs fail.
#[derive(Clone, Copy, Debug, PartialEq, Eq, Structural)]
pub struct DeterministicWeightedIndexError {}

/// The ordered cumulative weights of a weight vector, with their total.
pub struct DeterministicWeightedIndex {
    /// `cumulative_weights[i]` is the sum of the first `i + 1` weights.
    pub cumulative_weights: Vec<u64>,
    /// The sum of all weights; equals the last cumulative weight.
    pub total: u64,
}

impl DeterministicWeightedIndex {
    pub open spec fn wf(self) -> bool {
        &&& self.cumulative_weights@.len() > 0
        &&& self.total > 0
        &&& self.cumulative_weights@.last() == self.total
        &&& forall|i: int, j: int|
            0 <= i <= j < self.cumulative_weights@.len()
                ==> self.cumulative_weights@[i] <= self.cumulative_weights@[j]
    }

    pub open spec fn len(self) -> int {
        self.cumulative_weights@.len() as int
    }

    /// Whether the bucket at index `i` covers the selector value:
    /// `value / SELECTOR_SCALE <= cumulative_weights[i] / total`, cleared of
    /// denominators.
    pub open spec fn covers(self, value: int, i: int) -> bool {
        value * self.total <= self.cumulative_weights@[i] * SELECTOR_SCALE
    }

    /// The first bucket at or after `i` that covers the value, or `len` when
    /// none does.
    pub open spec fn first_covering_from(self, value: int, i: int) -> int
        decreases self.len() - i,
    {
        if i < 0 || i >= self.len() {
            self.len()
        } else if self.covers(value, i) {
            i
        } else {
            self.first_covering_from(value, i + 1)
        }
    }

    /// The bucket `sample` resolves a selector value to.
    pub open spec fn spec_sample(self, value: int) -> int {
        self.first_covering_from(value, 0)
    }

    pub proof fn lemma_first_covering_range(self, value: int, i: int)
        requires
            0 <= i <= self.len(),
        ensures
            i <= self.first_covering_from(value, i) <= self.len(),
        decreases self.len() - i,
    {
        if i < self.len() && !self.covers(value, i) {
            self.lemma_first_covering_range(value, i + 1);
        }
    }

    /// A covering bucket preceded only by non-covering ones is the choice.
    pub proof fn lemma_first_covering_lands(self, value: int, i: int, k: int)
        requires
            0 <= i <= k < self.len(),
            forall|j: int| i <= j < k ==> !self.covers(value, j),
            self.covers(value, k),
        ensures
            self.first_covering_from(value, i) == k,
        decreases k - i,
    {
        if i < k {
            self.lemma_first_covering_lands(value, i + 1, k);
        }
    }

    /// Raising the selector value never lowers the chosen bucket.
    pub proof fn lemma_sample_monotone(self, a: int, b: int)
        requires
            self.wf(),
            0 <= a <= b,
        ensures
            self.spec_sample(a) <= self.spec_sample(b),
    {
        self.lemma_first_covering_monotone(a, b, 0);
    }

    proof fn lemma_first_covering_monotone(self, a: int, b: int, i: int)
        requires
            self.wf(),
            0 <= a <= b,
            0 <= i <= self.len(),
        ensures
            self.first_covering_from(a, i) <= self.first_covering_from(b, i),
        decreases self.len() - i,
    {
        if i < self.len() {
            if self.covers(a, i) {
                self.lemma_first_covering_range(b, i);
            } else {
                if self.covers(b, i) {
                    assert(a * self.total <= b * self.total) by (nonlinear_arith)
                        requires
                            0 <= a <= b,
                            self.total >= 0,
                    ;
                    assert(false);
                }
                self.lemma_first_covering_monotone(a, b, i + 1);
            }
        }
    }

    /// Selector zero always lands in the first bucket; when the first weight
    /// is positive, that is exactly the first index whose cumulative weight
    /// is positive.
    pub proof fn lemma_sample_at_zero(self)
        requires
            self.wf(),
        ensures
            self.spec_sample(0) == 0,
    {
        assert(0 <= self.cumulative_weights@[0] * SELECTOR_SCALE) by (nonlinear_arith)
            requires
                self.cumulative_weights@[0] >= 0,
        ;
        assert(self.covers(0, 0));
    }

    /// The full selector value (one whole) lands in the last bucket,
    /// provided the last weight is positive.
    pub proof fn lemma_sample_at_full(self)
        requires
            self.wf(),
            self.len() >= 2 ==> self.cumulative_weights@[self.len() - 2] < self.total,
        ensures
            self.spec_sample(SELECTOR_SCALE as int) == self.len() - 1,
    {
        let s: int = SELECTOR_SCALE as int;
        let n: int = self.len();
        assert forall|j: int| 0 <= j < n - 1 implies !self.covers(s, j) by {
            assert(self.cumulative_weights@[j] <= self.cumulative_weights@[n - 2]);
            assert(s * self.total > self.cumulative_weights@[j] * s) by (nonlinear_arith)
                requires
                    self.cumulative_weights@[j] < self.total,
                    s > 0,
            ;
        }
        assert(s * self.total <= self.cumulative_weights@[n - 1] * s) by (nonlinear_arith)
            requires
                self.cumulative_weights@[n - 1] == self.total,
        ;
        assert(self.covers(s, n - 1));
        self.lemma_first_covering_lands(s, 0, n - 1);
    }

    /// Builds the index over a weight vector.  Fails exactly when the
    /// vector is empty, weighs nothing in total, or weighs more than a
    /// `u64` carries: the invalid-weights condition.
    pub fn new(weights: Vec<u32>) -> (r: Result<
        DeterministicWeightedIndex,
        DeterministicWeightedIndexError,
    >)
        ensures
            (r is Ok) <==> (weights@.len() > 0 && 0 < sum_of(weights@) <= u64::MAX),
            r matches Ok(d) ==> {
                &&& d.wf()
                &&& d.cumulative_weights@.len() == weights@.len()
                &&& d.total as int == sum_of(weights@)
                &&& forall|i: int|
                    0 <= i < weights@.len() ==> d.cumulative_weights@[i] as int == sum_of(
                        weights@.take(i + 1),
                    )
            },
    {
        let n: usize = weights.len();
        let mut cumulative_weights: Vec<u64> = Vec::new();
        let mut acc: u64 = 0;
        let mut k: usize = 0;
        proof {
            assert(weights@.take(0) =~= Seq::<u32>::empty());
        }
        while k < n
            invariant
                k <= n,
                n == weights@.len(),
                cumulative_weights@.len() == k,
                acc as int == sum_of(weights@.take(k as int)),
                forall|i: int|
                    0 <= i < k ==> cumulative_weights@[i] as int == sum_of(weights@.take(i + 1)),
            decreases n - k,
        {
            let w: u32 = weights[k];
            proof {
                lemma_sum_of_take_step(weights@, k as int);
            }
            if w as u64 > u64::MAX - acc {
                proof {
                    lemma_sum_of_take_le(weights@, k as int + 1);
                }
                return Err(DeterministicWeightedIndexError {});
            }
            acc = acc + w as u64;
            cumulative_weights.push(acc);
            k += 1;
        }
        proof {
            assert(weights@.take(n as int) =~= weights@);
        }
        if n == 0 || acc == 0 {
            return Err(DeterministicWeightedIndexError {});
        }
        let d = DeterministicWeightedIndex { cumulative_weights, total: acc };
        proof {
            assert forall|i: int, j: int|
                0 <= i <= j < d.cumulative_weights@.len() implies d.cumulative_weights@[i]
                <= d.cumulative_weights@[j] by {
                lemma_sum_of_take_mono(weights@, i + 1, j + 1);
            }
            assert(d.cumulative_weights@.last() == d.total);
        }
        Ok(d)
    }

    /// Resolves a selector value to its bucket: the smallest index whose
    /// cumulative weight fraction is at least the value.  Fails exactly
    /// when the value exceeds `SELECTOR_SCALE`: the out-of-range condition.
    pub fn sample(&self, at: u32) -> (r: Result<usize, DeterministicWeightedIndexError>)
        requires
            self.wf(),
        ensures
            (r is Ok) <==> at <= SELECTOR_SCALE,
            r matches Ok(i) ==> {
                &&& i as int == self.spec_sample(at as int)
                &&& i < self.len()
                &&& self.covers(at as int, i as int)
                &&& forall|j: int| 0 <= j < i ==> !self.covers(at as int, j)
            },
    {
        let n: usize = self.cumulative_weights.len();
        let mut i: usize = 0;
        while i < n
            invariant
                i <= n,
                n == self.cumulative_weights@.len(),
                self.wf(),
                forall|j: int| 0 <= j < i ==> !self.covers(at as int, j),
                self.spec_sample(at as int) == self.first_covering_from(at as int, i as int),
            decreases n - i,
        {
            let cw: u64 = self.cumulative_weights[i];
            proof {
                assert((at as u128) * (self.total as u128) <= (u32::MAX as u128) * (
                u64::MAX as u128)) by (nonlinear_arith)
                    requires
                        at <= u32::MAX,
                        self.total <= u64::MAX,
                ;
                assert((cw as u128) * (SELECTOR_SCALE as u128) <= (u64::MAX as u128) * (
                u32::MAX as u128)) by (nonlinear_arith)
                    requires
                        cw <= u64::MAX,
                        SELECTOR_SCALE <= u32::MAX,
                ;
            }
            if (at as u128) * (self.total as u128) <= (cw as u128) * (SELECTOR_SCALE as u128) {
                proof {
                    assert(self.covers(at as int, i as int));
                    assert(self.cumulative_weights@[i as int]
                        <= self.cumulative_weights@[n - 1]);
                    assert(at <= SELECTOR_SCALE) by (nonlinear_arith)
                        requires
                            at as int * self.total as int
                                <= self.cumulative_weights@[i as int] as int
                                * SELECTOR_SCALE as int,
                            self.cumulative_weights@[i as int] <= self.total,
                            self.total > 0,
                            SELECTOR_SCALE > 0,
                    ;
                }
                return Ok(i);
            }
            proof {
                assert(!self.covers(at as int, i as int));
            }
            i += 1;
        }
        proof {
            if at <= SELECTOR_SCALE {
                assert(at as int * self.total as int <= self.total as int
                    * SELECTOR_SCALE as int) by (nonlinear_arith)
                    requires
                        at <= SELECTOR_SCALE,
                        self.total >= 0,
                ;
                assert(self.covers(at as int, n - 1));
                assert(false);
            }
        }
        Err(DeterministicWeightedIndexError {})
    }
}

} // verus!
