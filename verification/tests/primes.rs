use microbench::primes::sieve_of_eratosthenes;

#[test]
fn sieve_smallest_limits() {
    assert_eq!(sieve_of_eratosthenes(1), 0);
    assert_eq!(sieve_of_eratosthenes(2), 1);
    assert_eq!(sieve_of_eratosthenes(3), 2);
    assert_eq!(sieve_of_eratosthenes(4), 2);
    assert_eq!(sieve_of_eratosthenes(5), 3);
}

#[test]
fn sieve_counts_known_values() {
    assert_eq!(sieve_of_eratosthenes(10), 4);
    assert_eq!(sieve_of_eratosthenes(100), 25);
    assert_eq!(sieve_of_eratosthenes(1000), 168);
}

#[test]
fn sieve_of_one_million() {
    assert_eq!(sieve_of_eratosthenes(1_000_000), 78498);
}

#[test]
fn sieve_at_a_prime_and_just_below() {
    // 97 is prime, so the count steps up exactly at 97.
    assert_eq!(sieve_of_eratosthenes(96), 24);
    assert_eq!(sieve_of_eratosthenes(97), 25);
}
