use microbench::fib::{fib_iterative, fib_recursive};

#[test]
fn fib_recursive_base_cases() {
    assert_eq!(fib_recursive(0), 0);
    assert_eq!(fib_recursive(1), 1);
    assert_eq!(fib_recursive(2), 1);
}

#[test]
fn fib_iterative_base_cases() {
    assert_eq!(fib_iterative(0), 0);
    assert_eq!(fib_iterative(1), 1);
    assert_eq!(fib_iterative(2), 1);
}

#[test]
fn fib_implementations_agree_on_small_indices() {
    for n in 0..=20 {
        assert_eq!(fib_iterative(n), fib_recursive(n));
    }
    assert_eq!(fib_iterative(10), 55);
    assert_eq!(fib_recursive(10), 55);
}

#[test]
fn fib_recursive_35_is_9227465() {
    assert_eq!(fib_recursive(35), 9227465);
}

#[test]
fn fib_iterative_50_is_12586269025() {
    assert_eq!(fib_iterative(50), 12586269025);
}

#[test]
fn fib_iterative_largest_i64_index() {
    assert_eq!(fib_iterative(92), 7540113804746346429);
}
