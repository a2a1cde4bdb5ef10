//! Sieve of Eratosthenes, proved to count exactly the primes up to its
//! limit under the standard definition of primality. The sieve keeps both
//! classic optimizations: striking for each prime starts at its square, and
//! the outer loop stops once the candidate exceeds the square root of the
//! limit.

use vstd::prelude::*;
use vstd::arithmetic::div_mod::{
    lemma_fundamental_div_mod, lemma_mod_multiples_basic, lemma_mod_bound,
    lemma_div_is_ordered_by_denominator, lemma_mod_multiples_vanish,
};

verus! {

/// k is prime: at least 2 and with no divisor strictly between 1 and k.
pub open spec fn is_prime(k: int) -> bool {
    2 <= k && forall|d: int| 2 <= d < k ==> #[trigger] (k % d) != 0
}

/// The number of primes that are at most n.
pub open spec fn prime_count(n: int) -> nat
    decreases n,
{
    if n < 2 {
        0
    } else {
        prime_count(n - 1) + if is_prime(n) {
            1nat
        } else {
            0nat
        }
    }
}

/// k has a divisor d with 2 <= d < bound whose square is at most k. These
/// are exactly the numbers struck by sieve passes for candidates below
/// bound.
spec fn has_small_factor_below(k: int, bound: int) -> bool {
    exists|d: int| 2 <= d < bound && d * d <= k && #[trigger] (k % d) == 0
}

/// Divisibility is transitive: if a divides b and b divides c, a divides c.
proof fn lemma_divides_transitive(a: int, b: int, c: int)
    requires
        1 <= a,
        1 <= b,
        b % a == 0,
        c % b == 0,
    ensures
        c % a == 0,
{
    lemma_fundamental_div_mod(b, a);
    lemma_fundamental_div_mod(c, b);
    let m = b / a;
    let n = c / b;
    assert(c == (m * n) * a) by (nonlinear_arith)
        requires
            b == a * m,
            c == b * n;
    lemma_mod_multiples_basic(m * n, a);
}

/// Every composite number has a divisor no larger than its square root.
proof fn lemma_composite_has_small_factor(k: int)
    requires
        2 <= k,
        !is_prime(k),
    ensures
        exists|d: int| 2 <= d && d * d <= k && #[trigger] (k % d) == 0,
{
    let d = choose|d: int| 2 <= d < k && #[trigger] (k % d) != 0 == false;
    assert(2 <= d < k && k % d == 0);
    if d * d <= k {
        assert(2 <= d && d * d <= k && k % d == 0);
    } else {
        let q = k / d;
        lemma_fundamental_div_mod(k, d);
        assert(k == d * q);
        assert(2 <= q && q * q <= k) by (nonlinear_arith)
            requires
                k == d * q,
                2 <= d < k,
                d * d > k;
        lemma_mod_multiples_basic(d, q);
        assert(k % q == 0);
    }
}

/// A number with a divisor no larger than its square root is not prime.
proof fn lemma_small_factor_not_prime(k: int, d: int)
    requires
        2 <= d,
        d * d <= k,
        k % d == 0,
    ensures
        !is_prime(k),
{
    assert(d < k) by (nonlinear_arith)
        requires
            2 <= d,
            d * d <= k;
}

/// Squaring is strictly monotonic on positive integers, read backwards.
proof fn lemma_square_lt(d: int, i: int)
    requires
        0 <= d,
        0 <= i,
        d * d < i * i,
    ensures
        d < i,
{
    assert(d < i) by (nonlinear_arith)
        requires
            0 <= d,
            0 <= i,
            d * d < i * i;
}

/// Two distinct multiples of i lie at least i apart.
proof fn lemma_multiple_gap(i: int, j: int, k: int)
    requires
        1 <= i,
        j % i == 0,
        k % i == 0,
        j < k,
    ensures
        j + i <= k,
{
    lemma_fundamental_div_mod(j, i);
    lemma_fundamental_div_mod(k, i);
    assert(j + i <= k) by (nonlinear_arith)
        requires
            1 <= i,
            j == i * (j / i),
            k == i * (k / i),
            j < k;
}

/// The sieve state after all passes below bound: an entry is struck
/// exactly when it has a witness divisor below bound.
spec fn struck_upto(flags: Seq<bool>, limitv: int, bound: int) -> bool {
    forall|k: int|
        2 <= k <= limitv ==> ((#[trigger] flags[k]) == false <==> has_small_factor_below(k, bound))
}

/// The sieve state in the middle of the pass for candidate i, which has
/// struck the multiples of i from i*i up to (but not including) j.
spec fn struck_partial(flags: Seq<bool>, limitv: int, i: int, j: int) -> bool {
    forall|k: int|
        2 <= k <= limitv ==> ((#[trigger] flags[k]) == false <==> (has_small_factor_below(k, i)
            || (k % i == 0 && i * i <= k < j)))
}

/// Sieve of Eratosthenes: counts the primes up to limit, striking the
/// multiples of each remaining candidate from its square on and stopping
/// the outer scan at the square root of the limit.
pub fn sieve_of_eratosthenes(limit: usize) -> (r: usize)
    requires
        1 <= limit,
        limit <= usize::MAX / 2,
    ensures
        r == prime_count(limit as int),
{
    let mut flags: Vec<bool> = Vec::with_capacity(limit + 1);
    let mut t: usize = 0;
    while t < limit + 1
        invariant
            t <= limit + 1,
            limit <= usize::MAX / 2,
            flags@.len() == t,
            forall|x: int| 0 <= x < t ==> flags@[x] == true,
        decreases limit + 1 - t,
    {
        flags.push(true);
        t = t + 1;
    }
    flags.set(0, false);
    flags.set(1, false);

    let mut i: usize = 2;
    while i <= limit / i
        invariant
            2 <= i,
            i <= limit + 1,
            1 <= limit <= usize::MAX / 2,
            flags@.len() == limit + 1,
            flags@[0] == false,
            flags@[1] == false,
            struck_upto(flags@, limit as int, i as int),
        decreases limit + 1 - i,
    {
        let ghost ii = i as int;
        proof {
            lemma_fundamental_div_mod(limit as int, ii);
            lemma_mod_bound(limit as int, ii);
            assert(ii * ii <= limit) by (nonlinear_arith)
                requires
                    2 <= ii <= limit as int / ii,
                    limit as int == ii * (limit as int / ii) + (limit as int % ii),
                    0 <= limit as int % ii;
            lemma_div_is_ordered_by_denominator(limit as int, 2, ii);
            assert(ii <= limit as int / 2);
            lemma_mod_multiples_basic(ii, ii);
            assert((ii * ii) % ii == 0);
        }
        if flags[i] {
            let mut j: usize = i * i;
            while j <= limit
                invariant
                    2 <= i <= limit,
                    1 <= limit <= usize::MAX / 2,
                    ii == i as int,
                    ii * ii <= limit,
                    flags@.len() == limit + 1,
                    flags@[0] == false,
                    flags@[1] == false,
                    ii * ii <= j,
                    j as int % ii == 0,
                    j <= limit + i,
                    struck_partial(flags@, limit as int, ii, j as int),
                decreases limit + i - j,
            {
                let ghost prev = flags@;
                let ghost jj = j as int;
                flags.set(j, false);
                proof {
                    assert forall|k: int|
                        2 <= k <= limit implies ((#[trigger] flags@[k]) == false <==> (
                    has_small_factor_below(k, ii) || (k % ii == 0 && ii * ii <= k < jj
                        + ii))) by {
                        assert(prev[k] == false <==> (has_small_factor_below(k, ii) || (k % ii == 0
                            && ii * ii <= k < jj)));
                        if k == jj {
                            assert(flags@[k] == false);
                            assert(k % ii == 0 && ii * ii <= k < jj + ii);
                        } else {
                            assert(flags@[k] == prev[k]);
                            if k % ii == 0 && ii * ii <= k && jj < k < jj + ii {
                                lemma_multiple_gap(ii, jj, k);
                                assert(false);
                            }
                        }
                    }
                    assert(struck_partial(flags@, limit as int, ii, jj + ii));
                    lemma_mod_multiples_vanish(1, jj, ii);
                    assert((jj + ii) % ii == 0);
                }
                j = j + i;
            }
            proof {
                assert forall|k: int|
                    2 <= k <= limit implies ((#[trigger] flags@[k]) == false <==>
                has_small_factor_below(k, ii + 1)) by {
                    assert(flags@[k] == false <==> (has_small_factor_below(k, ii) || (k % ii == 0
                        && ii * ii <= k < j)));
                    if flags@[k] == false {
                        if has_small_factor_below(k, ii) {
                            let d = choose|d: int|
                                2 <= d < ii && d * d <= k && #[trigger] (k % d) == 0;
                            assert(2 <= d < ii + 1 && d * d <= k && k % d == 0);
                        } else {
                            assert(k % ii == 0 && ii * ii <= k);
                            assert(2 <= ii < ii + 1 && ii * ii <= k && k % ii == 0);
                        }
                        assert(has_small_factor_below(k, ii + 1));
                    } else {
                        if has_small_factor_below(k, ii + 1) {
                            let d = choose|d: int|
                                2 <= d < ii + 1 && d * d <= k && #[trigger] (k % d) == 0;
                            if d < ii {
                                assert(has_small_factor_below(k, ii));
                            } else {
                                assert(d == ii);
                            }
                            assert(false);
                        }
                    }
                }
                assert(struck_upto(flags@, limit as int, ii + 1));
            }
        } else {
            proof {
                assert(flags@[ii] == false);
                assert(has_small_factor_below(ii, ii));
                let d0 = choose|d: int| 2 <= d < ii && d * d <= ii && #[trigger] (ii % d) == 0;
                assert(ii <= ii * ii) by (nonlinear_arith)
                    requires
                        2 <= ii;
                assert forall|k: int|
                    2 <= k <= limit implies ((#[trigger] flags@[k]) == false <==>
                has_small_factor_below(k, ii + 1)) by {
                    assert(flags@[k] == false <==> has_small_factor_below(k, ii));
                    if flags@[k] == false {
                        let d = choose|d: int| 2 <= d < ii && d * d <= k && #[trigger] (k % d) == 0;
                        assert(2 <= d < ii + 1 && d * d <= k && k % d == 0);
                        assert(has_small_factor_below(k, ii + 1));
                    } else {
                        if has_small_factor_below(k, ii + 1) {
                            let d = choose|d: int|
                                2 <= d < ii + 1 && d * d <= k && #[trigger] (k % d) == 0;
                            if d < ii {
                                assert(has_small_factor_below(k, ii));
                            } else {
                                assert(d == ii);
                                lemma_divides_transitive(d0, ii, k);
                                assert(2 <= d0 < ii && d0 * d0 <= k && k % d0 == 0);
                                assert(has_small_factor_below(k, ii));
                            }
                            assert(false);
                        }
                    }
                }
                assert(struck_upto(flags@, limit as int, ii + 1));
            }
        }
        i = i + 1;
    }

    proof {
        let ii = i as int;
        lemma_fundamental_div_mod(limit as int, ii);
        lemma_mod_bound(limit as int, ii);
        assert(limit < ii * ii) by (nonlinear_arith)
            requires
                2 <= ii,
                limit as int / ii < ii,
                limit as int == ii * (limit as int / ii) + (limit as int % ii),
                0 <= limit as int % ii < ii;
        assert forall|k: int| 0 <= k <= limit implies ((#[trigger] flags@[k]) <==> is_prime(
            k,
        )) by {
            if k < 2 {
                assert(flags@[k] == false);
                assert(!is_prime(k));
            } else {
                assert(flags@[k] == false <==> has_small_factor_below(k, ii));
                if flags@[k] == false {
                    let d = choose|d: int| 2 <= d < ii && d * d <= k && #[trigger] (k % d) == 0;
                    lemma_small_factor_not_prime(k, d);
                } else {
                    if !is_prime(k) {
                        lemma_composite_has_small_factor(k);
                        let d = choose|d: int| 2 <= d && d * d <= k && #[trigger] (k % d) == 0;
                        lemma_square_lt(d, ii);
                        assert(2 <= d < ii && d * d <= k && k % d == 0);
                        assert(has_small_factor_below(k, ii));
                        assert(false);
                    }
                }
            }
        }
    }

    let mut count: usize = 0;
    let mut k: usize = 0;
    while k <= limit
        invariant
            k <= limit + 1,
            limit <= usize::MAX / 2,
            flags@.len() == limit + 1,
            forall|x: int| 0 <= x <= limit ==> ((#[trigger] flags@[x]) <==> is_prime(x)),
            count == prime_count(k as int - 1),
            count <= k,
        decreases limit + 1 - k,
    {
        proof {
            assert(prime_count(k as int) == prime_count(k as int - 1) + if is_prime(k as int) {
                1nat
            } else {
                0nat
            });
        }
        if flags[k] {
            count = count + 1;
        }
        k = k + 1;
    }
    count
}

} // verus!
