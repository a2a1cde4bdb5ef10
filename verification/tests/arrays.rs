use microbench::arrays::{array_workload, ascending, reverse_in_place, sum_widened};

#[test]
fn ascending_builds_zero_to_n_minus_one() {
    let v = ascending(5);
    assert_eq!(v, vec![0, 1, 2, 3, 4]);
    let empty = ascending(0);
    assert!(empty.is_empty());
}

#[test]
fn sum_widened_matches_hand_computation() {
    let v = vec![1, 2, 3, 4, 5];
    assert_eq!(sum_widened(&v), 15);
    let mixed = vec![i32::MAX, i32::MAX, -1];
    assert_eq!(sum_widened(&mixed), 2 * (i32::MAX as i64) - 1);
    let empty: Vec<i32> = Vec::new();
    assert_eq!(sum_widened(&empty), 0);
}

#[test]
fn reverse_in_place_reverses() {
    let mut v = vec![1, 2, 3, 4];
    reverse_in_place(&mut v);
    assert_eq!(v, vec![4, 3, 2, 1]);
    let mut odd = vec![1, 2, 3];
    reverse_in_place(&mut odd);
    assert_eq!(odd, vec![3, 2, 1]);
    let mut empty: Vec<i32> = Vec::new();
    reverse_in_place(&mut empty);
    assert!(empty.is_empty());
}

#[test]
fn reversal_preserves_the_sum() {
    let mut v = ascending(1000);
    let before = sum_widened(&v);
    reverse_in_place(&mut v);
    let after = sum_widened(&v);
    assert_eq!(before, after);
}

#[test]
fn array_workload_of_one_million() {
    let (sum1, sum2) = array_workload(1_000_000);
    assert_eq!(sum1, 499999500000);
    assert_eq!(sum2, 499999500000);
}

#[test]
fn array_workload_tiny_sizes() {
    assert_eq!(array_workload(0), (0, 0));
    assert_eq!(array_workload(1), (0, 0));
    assert_eq!(array_workload(4), (6, 6));
}
