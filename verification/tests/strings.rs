use microbench::strings::{
    build_repeated, count_occurrences, hello_pattern, llo_pattern, string_workload,
};

#[test]
fn patterns_hold_their_bytes() {
    assert_eq!(hello_pattern(), b"Hello".to_vec());
    assert_eq!(llo_pattern(), b"llo".to_vec());
}

#[test]
fn build_repeated_small_cases() {
    let pat = hello_pattern();
    assert_eq!(build_repeated(&pat, 0), Vec::<u8>::new());
    assert_eq!(build_repeated(&pat, 1), b"Hello".to_vec());
    assert_eq!(build_repeated(&pat, 3), b"HelloHelloHello".to_vec());
}

#[test]
fn build_repeated_hundred_thousand_hellos_has_length_500000() {
    let pat = hello_pattern();
    let buf = build_repeated(&pat, 100_000);
    assert_eq!(buf.len(), 500_000);
}

#[test]
fn count_occurrences_counts_overlapping_matches() {
    // The scan resumes one byte after each match, so matches may share bytes.
    assert_eq!(count_occurrences(b"aaaa", b"aa"), 3);
    assert_eq!(count_occurrences(b"aaaa", b"aaa"), 2);
    assert_eq!(count_occurrences(b"Hello", b"llo"), 1);
    assert_eq!(count_occurrences(b"Hello", b"l"), 2);
}

#[test]
fn count_occurrences_edge_cases() {
    assert_eq!(count_occurrences(b"", b"a"), 0);
    assert_eq!(count_occurrences(b"ab", b"abc"), 0);
    assert_eq!(count_occurrences(b"abc", b"abc"), 1);
    assert_eq!(count_occurrences(b"abc", b"x"), 0);
}

#[test]
fn repeated_hellos_hold_one_llo_each() {
    let pat = hello_pattern();
    let sub = llo_pattern();
    for k in 1..=5 {
        let buf = build_repeated(&pat, k);
        assert_eq!(count_occurrences(&buf, &sub), k);
    }
}

#[test]
fn string_workload_of_hundred_thousand() {
    let (length, occurrences) = string_workload(100_000);
    assert_eq!(length, 500_000);
    assert_eq!(occurrences, 100_000);
}
