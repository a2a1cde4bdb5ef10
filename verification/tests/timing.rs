use microbench::timing::duration_to_millis;

#[test]
fn duration_to_millis_truncates() {
    assert_eq!(duration_to_millis(0, 0), 0);
    assert_eq!(duration_to_millis(0, 999_999), 0);
    assert_eq!(duration_to_millis(0, 1_000_000), 1);
    assert_eq!(duration_to_millis(0, 999_999_999), 999);
    assert_eq!(duration_to_millis(1, 0), 1000);
    assert_eq!(duration_to_millis(3, 250_000_001), 3250);
}

#[test]
fn duration_to_millis_handles_large_durations() {
    assert_eq!(duration_to_millis(u64::MAX, 999_999_999), u64::MAX as u128 * 1000 + 999);
}

#[test]
fn duration_to_millis_agrees_with_std() {
    let d = std::time::Duration::new(7, 654_321_987);
    assert_eq!(duration_to_millis(d.as_secs(), d.subsec_nanos()), d.as_millis());
}
