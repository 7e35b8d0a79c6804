use iot_pipeline::stats::{collect_values_after, compute_percentiles, keep_later_than, keep_stamped_after};

#[test]
fn percentiles_of_empty_window_are_zero() {
    assert_eq!(compute_percentiles(&[]), (0, 0));
}

#[test]
fn percentiles_of_single_sample() {
    assert_eq!(compute_percentiles(&[42]), (42, 42));
}

#[test]
fn percentiles_of_three_samples() {
    // ranks floor(3 * 0.5) = 1 and floor(3 * 0.99) = 2 of [1, 2, 3]
    assert_eq!(compute_percentiles(&[3, 1, 2]), (2, 3));
}

#[test]
fn percentiles_of_hundred_samples() {
    let v: Vec<u64> = (1..=100).rev().collect();
    // ranks 50 and 99 of 1..=100
    assert_eq!(compute_percentiles(&v), (51, 100));
}

#[test]
fn percentiles_of_two_hundred_samples() {
    let v: Vec<u64> = (0..200).map(|i| (i * 7919) % 200).collect();
    // ranks 100 and 198 of 0..200
    assert_eq!(compute_percentiles(&v), (100, 198));
}

#[test]
fn median_not_above_p99() {
    let v = vec![9, 1, 8, 2, 7, 3, 6, 4, 5, 1000];
    let (p50, p99) = compute_percentiles(&v);
    assert!(p50 <= p99);
    assert!(v.contains(&p50) && v.contains(&p99));
    assert_eq!((p50, p99), (6, 1000));
}

#[test]
fn keep_only_samples_after_cutoff() {
    let w = vec![(100, 1), (200, 2), (150, 3), (300, 4)];
    assert_eq!(keep_stamped_after(&w, 150), vec![(200, 2), (300, 4)]);
    assert_eq!(collect_values_after(&w, 100), vec![2, 3, 4]);
    assert_eq!(keep_later_than(&vec![5, 10, 15], 10), vec![15]);
    assert_eq!(keep_later_than(&vec![5, 10, 15], 20), Vec::<u64>::new());
}
