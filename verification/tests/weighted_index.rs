use shore::SELECTOR_SCALE;
use shore::text_table::deterministic_weighted_index::DeterministicWeightedIndex;
use shore::text_table::deterministic_weighted_index::DeterministicWeightedIndexError;
use shore::text_table::weighted_choice::WeightedChoice;
use shore::text_table::weighted_choice::WeightedChoiceError;

#[test]
fn deterministic_index_rejects_empty_weights() {
    let r = DeterministicWeightedIndex::new(vec![]);
    assert!(matches!(r, Err(DeterministicWeightedIndexError {})));
}

#[test]
fn deterministic_index_rejects_all_zero_weights() {
    let r = DeterministicWeightedIndex::new(vec![0, 0, 0]);
    assert!(matches!(r, Err(DeterministicWeightedIndexError {})));
}

#[test]
fn deterministic_index_fixed_weights() {
    // Weights [1, 1, 2] give cumulative fractions 0.25, 0.5, 1.0.
    let d = DeterministicWeightedIndex::new(vec![1, 1, 2]).unwrap();
    assert_eq!(d.sample(0).unwrap(), 0);
    assert_eq!(d.sample(260_000).unwrap(), 1);
    assert_eq!(d.sample(750_000).unwrap(), 2);
    // The boundary value of a bucket still belongs to it.
    assert_eq!(d.sample(250_000).unwrap(), 0);
    assert_eq!(d.sample(500_000).unwrap(), 1);
    assert_eq!(d.sample(SELECTOR_SCALE).unwrap(), 2);
}

#[test]
fn deterministic_index_rejects_value_beyond_one() {
    let d = DeterministicWeightedIndex::new(vec![3, 1]).unwrap();
    let r = d.sample(SELECTOR_SCALE + 1);
    assert!(matches!(r, Err(DeterministicWeightedIndexError {})));
}

#[test]
fn deterministic_index_is_monotone() {
    let d = DeterministicWeightedIndex::new(vec![2, 0, 5, 1]).unwrap();
    let mut previous: usize = 0;
    let mut at: u32 = 0;
    while at <= SELECTOR_SCALE {
        let i = d.sample(at).unwrap();
        assert!(i >= previous);
        previous = i;
        at += 12_345;
    }
}

#[test]
fn deterministic_index_same_value_same_bucket() {
    let d = DeterministicWeightedIndex::new(vec![7, 2, 9]).unwrap();
    for at in [0u32, 123_456, 999_999, SELECTOR_SCALE] {
        let first = d.sample(at).unwrap();
        for _ in 0..10 {
            assert_eq!(d.sample(at).unwrap(), first);
        }
    }
}

#[test]
fn weighted_choice_rejects_empty_weights() {
    let r = WeightedChoice::new(vec![]);
    assert!(matches!(r, Err(WeightedChoiceError {})));
}

#[test]
fn weighted_choice_rejects_all_zero_weights() {
    let r = WeightedChoice::new(vec![0]);
    assert!(matches!(r, Err(WeightedChoiceError {})));
}

#[test]
fn weighted_choice_fixed_weights() {
    let c = WeightedChoice::new(vec![1, 1, 2]).unwrap();
    assert_eq!(c.get(0).unwrap(), 0);
    assert_eq!(c.get(260_000).unwrap(), 1);
    assert_eq!(c.get(750_000).unwrap(), 2);
    assert!(matches!(c.get(SELECTOR_SCALE + 1), Err(WeightedChoiceError {})));
}
