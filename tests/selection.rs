use endfind::selection::select_best;

#[test]
fn select_best_of_nothing() {
    assert_eq!(select_best(&vec![]), None);
    assert_eq!(select_best(&vec![0, 0, 0]), None);
}

#[test]
fn select_best_takes_largest() {
    assert_eq!(select_best(&vec![3, 9, 1, 4]), Some(1));
    assert_eq!(select_best(&vec![0, 0, 7]), Some(2));
    assert_eq!(select_best(&vec![u64::MAX, 1]), Some(0));
}

#[test]
fn select_best_prefers_earliest_on_ties() {
    assert_eq!(select_best(&vec![1, 5, 2, 5, 5]), Some(1));
    assert_eq!(select_best(&vec![0, 4, 4]), Some(1));
}

#[test]
fn select_best_orders_positive_posteriors_like_their_values() {
    let values: Vec<f64> = vec![1e-300, 0.25, 3.0e10, 0.5, 3.0e10, 1e-20];
    let scores: Vec<u64> = values.iter().map(|v| v.to_bits()).collect();
    assert_eq!(select_best(&scores), Some(2));
}

#[test]
fn select_best_is_repeatable() {
    let scores = vec![2, 8, 8, 3];
    assert_eq!(select_best(&scores), select_best(&scores));
}
