//! The array benchmark kernel: build an ascending array of integers, sum it
//! with a widened 64-bit accumulator, reverse it in place, and sum it again.
//! Reversal preserves the sum, and the sum of 0..n-1 is n*(n-1)/2.

use vstd::prelude::*;

verus! {

/// Sum of the elements of a sequence of `i32` values, as a mathematical integer.
pub open spec fn sum_seq(s: Seq<i32>) -> int
    decreases s.len(),
{
    if s.len() == 0 {
        0
    } else {
        sum_seq(s.drop_last()) + s.last()
    }
}

/// Summing distributes over concatenation.
pub proof fn lemma_sum_concat(a: Seq<i32>, b: Seq<i32>)
    ensures
        sum_seq(a + b) == sum_seq(a) + sum_seq(b),
    decreases b.len(),
{
    if b.len() == 0 {
        assert(a + b =~= a);
    } else {
        lemma_sum_concat(a, b.drop_last());
        assert((a + b).drop_last() =~= a + b.drop_last());
    }
}

proof fn lemma_sum_singleton(x: i32)
    ensures
        sum_seq(seq![x]) == x,
{
    assert(seq![x].drop_last() =~= Seq::<i32>::empty());
    assert(sum_seq(Seq::<i32>::empty()) == 0);
}

/// Reversing a sequence does not change its sum: the reversal is a
/// permutation of the elements.
pub proof fn lemma_sum_reverse(s: Seq<i32>)
    ensures
        sum_seq(s.reverse()) == sum_seq(s),
    decreases s.len(),
{
    if s.len() == 0 {
        assert(s.reverse() =~= s);
    } else {
        lemma_sum_reverse(s.drop_last());
        assert(s.reverse() =~= seq![s.last()] + s.drop_last().reverse());
        lemma_sum_concat(seq![s.last()], s.drop_last().reverse());
        lemma_sum_singleton(s.last());
    }
}

/// The sum of a sequence of `i32` values is bounded by its length times 2^31.
pub proof fn lemma_sum_bound(s: Seq<i32>)
    ensures
        -(s.len() as int) * 0x8000_0000 <= sum_seq(s) <= (s.len() as int) * 0x8000_0000,
    decreases s.len(),
{
    if s.len() > 0 {
        lemma_sum_bound(s.drop_last());
    }
}

/// The sum of the ascending sequence 0, 1, ..., n-1 is n*(n-1)/2.
pub proof fn lemma_sum_ascending(s: Seq<i32>)
    requires
        forall|i: int| 0 <= i < s.len() ==> s[i] == i,
    ensures
        2 * sum_seq(s) == (s.len() as int) * (s.len() as int - 1),
    decreases s.len(),
{
    if s.len() > 0 {
        lemma_sum_ascending(s.drop_last());
        let n = s.len() as int;
        assert((n - 1) * (n - 2) + 2 * (n - 1) == n * (n - 1)) by (nonlinear_arith);
    }
}

/// Builds the dense ascending sequence 0, 1, ..., n-1.
pub fn ascending(n: usize) -> (r: Vec<i32>)
    requires
        n <= i32::MAX,
    ensures
        r@.len() == n,
        forall|i: int| 0 <= i < n ==> r@[i] == i,
{
    let mut v: Vec<i32> = Vec::with_capacity(n);
    let mut k: usize = 0;
    while k < n
        invariant
            k <= n <= i32::MAX,
            v@.len() == k,
            forall|i: int| 0 <= i < k ==> v@[i] == i,
        decreases n - k,
    {
        v.push(k as i32);
        k = k + 1;
    }
    v
}

/// Sums all elements, each widened to 64 bits before accumulation.
pub fn sum_widened(v: &Vec<i32>) -> (r: i64)
    requires
        v@.len() < 0x1_0000_0000,
    ensures
        r == sum_seq(v@),
{
    let mut acc: i64 = 0;
    let mut k: usize = 0;
    while k < v.len()
        invariant
            k <= v@.len() < 0x1_0000_0000,
            acc == sum_seq(v@.subrange(0, k as int)),
        decreases v@.len() - k,
    {
        proof {
            lemma_sum_bound(v@.subrange(0, k as int));
            assert(v@.subrange(0, k as int + 1).drop_last() =~= v@.subrange(0, k as int));
        }
        acc = acc + (v[k] as i64);
        k = k + 1;
    }
    proof {
        assert(v@.subrange(0, v@.len() as int) =~= v@);
    }
    acc
}

/// Reverses the vector in place: the element at index i moves to index
/// len - 1 - i.
pub fn reverse_in_place(v: &mut Vec<i32>)
    ensures
        final(v)@ == old(v)@.reverse(),
{
    let n = v.len();
    let mut k: usize = 0;
    while k < n / 2
        invariant
            v@.len() == n,
            n == old(v)@.len(),
            k <= n / 2,
            forall|i: int| 0 <= i < k ==> v@[i] == old(v)@[n - 1 - i],
            forall|i: int| 0 <= i < k ==> v@[n - 1 - i] == old(v)@[i],
            forall|i: int| k <= i < n - k ==> v@[i] == old(v)@[i],
        decreases n / 2 - k,
    {
        let tmp = v[k];
        let other = v[n - 1 - k];
        v.set(k, other);
        v.set(n - 1 - k, tmp);
        k = k + 1;
    }
    proof {
        assert(v@ =~= old(v)@.reverse());
    }
}

/// The array benchmark kernel: build the ascending array 0..n-1, sum it,
/// reverse it in place, and sum it again. Both sums equal n*(n-1)/2.
pub fn array_workload(n: usize) -> (r: (i64, i64))
    requires
        n <= i32::MAX,
    ensures
        r.0 == r.1,
        2 * r.0 == (n as int) * (n as int - 1),
{
    let mut arr = ascending(n);
    let ghost orig: Seq<i32> = arr@;
    let sum1 = sum_widened(&arr);
    reverse_in_place(&mut arr);
    let sum2 = sum_widened(&arr);
    proof {
        lemma_sum_reverse(orig);
        lemma_sum_ascending(orig);
    }
    (sum1, sum2)
}

} // verus!
