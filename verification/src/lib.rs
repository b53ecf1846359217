//! Procedural generation of a "shore": a mosaic of short text fragments packed
//! greedily into horizontal lines of a fixed canvas, where a continuous
//! selector value drawn from a noise field decides which weighted region of a
//! corpus supplies each fragment.
//!
//! All geometry is carried in integer units (a canvas width, per-character
//! advance widths and line heights share one arbitrary unit), and continuous
//! fractions such as selector values and pot chances are fixed-point integers,
//! so every packing decision is exact.

use vstd::prelude::*;

pub mod font;
pub mod random;
pub mod shore;
pub mod text_table;
pub mod words;

verus! {

/// Selector values are fixed-point fractions of one: a selector `v` stands
/// for the real number `v / SELECTOR_SCALE`, and valid selectors lie in
/// `[0, SELECTOR_SCALE]`.
pub const SELECTOR_SCALE: u32 = 1_000_000;

/// Pot chances are fixed-point fractions of one: a chance `c` stands for the
/// probability `c / CHANCE_SCALE`, and valid chances lie in
/// `[0, CHANCE_SCALE]`.
pub const CHANCE_SCALE: u32 = 1_000_000;

/// The sum of a sequence of weights, as an unbounded integer.
pub open spec fn sum_of(weights: Seq<u32>) -> int
    decreases weights.len(),
{
    if weights.len() == 0 {
        0
    } else {
        sum_of(weights.drop_last()) + weights.last()
    }
}

pub proof fn lemma_sum_of_nonneg(weights: Seq<u32>)
    ensures
        sum_of(weights) >= 0,
    decreases weights.len(),
{
    if weights.len() > 0 {
        lemma_sum_of_nonneg(weights.drop_last());
    }
}

/// Extending a prefix by one element adds that element's weight.
pub proof fn lemma_sum_of_take_step(weights: Seq<u32>, k: int)
    requires
        0 <= k < weights.len(),
    ensures
        sum_of(weights.take(k + 1)) == sum_of(weights.take(k)) + weights[k],
{
    assert(weights.take(k + 1).drop_last() =~= weights.take(k));
    assert(weights.take(k + 1).last() == weights[k]);
}

/// A longer prefix never weighs less.
pub proof fn lemma_sum_of_take_mono(weights: Seq<u32>, a: int, b: int)
    requires
        0 <= a <= b <= weights.len(),
    ensures
        sum_of(weights.take(a)) <= sum_of(weights.take(b)),
{
    assert(weights.take(b).take(a) =~= weights.take(a));
    lemma_sum_of_take_le(weights.take(b), a);
}

/// A prefix never weighs more than the whole sequence.
pub proof fn lemma_sum_of_take_le(weights: Seq<u32>, k: int)
    requires
        0 <= k <= weights.len(),
    ensures
        sum_of(weights.take(k)) <= sum_of(weights),
    decreases weights.len() - k,
{
    if k == weights.len() {
        assert(weights.take(k) =~= weights);
    } else {
        lemma_sum_of_take_step(weights, k);
        lemma_sum_of_take_le(weights, k + 1);
    }
}

} // verus!
