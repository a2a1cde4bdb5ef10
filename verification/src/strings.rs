//! The string benchmark kernel: build a buffer by repeating a short pattern,
//! then count the occurrences of a substring under the overlapping policy
//! (after a match at position p the scan resumes at p + 1, so matches may
//! share bytes). Repeating "Hello" k times yields exactly k occurrences of
//! "llo".

use vstd::prelude::*;

verus! {

/// The pattern occurs in s starting at position p.
pub open spec fn match_at(s: Seq<u8>, pat: Seq<u8>, p: int) -> bool {
    &&& 0 <= p
    &&& p + pat.len() <= s.len()
    &&& s.subrange(p, p + pat.len() as int) == pat
}

/// The number of positions q >= p at which pat occurs in s. Every starting
/// position counts, so overlapping occurrences all count.
pub open spec fn count_matches_from(s: Seq<u8>, pat: Seq<u8>, p: int) -> nat
    decreases s.len() - p + 1,
{
    if p < 0 || p + pat.len() > s.len() {
        0
    } else {
        (if match_at(s, pat, p) {
            1nat
        } else {
            0nat
        }) + count_matches_from(s, pat, p + 1)
    }
}

/// The number of positions at which pat occurs in s, overlapping
/// occurrences included.
pub open spec fn count_matches(s: Seq<u8>, pat: Seq<u8>) -> nat {
    count_matches_from(s, pat, 0)
}

/// pat repeated k times.
pub open spec fn repeat_seq(pat: Seq<u8>, k: nat) -> Seq<u8>
    decreases k,
{
    if k == 0 {
        Seq::empty()
    } else {
        pat + repeat_seq(pat, (k - 1) as nat)
    }
}

/// The bytes of "Hello".
pub open spec fn hello() -> Seq<u8> {
    seq![72u8, 101u8, 108u8, 108u8, 111u8]
}

/// The bytes of "llo".
pub open spec fn llo() -> Seq<u8> {
    seq![108u8, 108u8, 111u8]
}

/// A repetition of pat is as long as k copies of pat.
pub proof fn lemma_repeat_len(pat: Seq<u8>, k: nat)
    ensures
        repeat_seq(pat, k).len() == pat.len() * k,
    decreases k,
{
    if k > 0 {
        lemma_repeat_len(pat, (k - 1) as nat);
        assert(repeat_seq(pat, k) == pat + repeat_seq(pat, (k - 1) as nat));
        assert(repeat_seq(pat, k).len() == pat.len() + pat.len() * ((k - 1) as nat));
        assert(pat.len() as int + pat.len() * ((k - 1) as nat) == pat.len() * k)
            by (nonlinear_arith)
            requires
                1 <= k;
    } else {
        assert(pat.len() * k == 0) by (nonlinear_arith)
            requires
                k == 0;
    }
}

/// Appending one more copy of pat extends a repetition by one.
proof fn lemma_repeat_snoc(pat: Seq<u8>, k: nat)
    ensures
        repeat_seq(pat, k) + pat == repeat_seq(pat, (k + 1) as nat),
    decreases k,
{
    if k == 0 {
        assert(repeat_seq(pat, 0) + pat =~= pat + repeat_seq(pat, 0));
    } else {
        lemma_repeat_snoc(pat, (k - 1) as nat);
        assert((pat + repeat_seq(pat, (k - 1) as nat)) + pat =~= pat + (repeat_seq(
            pat,
            (k - 1) as nat,
        ) + pat));
    }
}

/// A mismatched byte rules a match out.
proof fn lemma_no_match(s: Seq<u8>, pat: Seq<u8>, p: int, t: int)
    requires
        0 <= p,
        p + pat.len() <= s.len(),
        0 <= t < pat.len(),
        s[p + t] != pat[t],
    ensures
        !match_at(s, pat, p),
{
    if s.subrange(p, p + pat.len() as int) == pat {
        assert(s.subrange(p, p + pat.len() as int)[t] == s[p + t]);
    }
}

/// Bytewise agreement over the window makes a match.
proof fn lemma_match(s: Seq<u8>, pat: Seq<u8>, p: int)
    requires
        0 <= p,
        p + pat.len() <= s.len(),
        forall|t: int| 0 <= t < pat.len() ==> s[p + t] == pat[t],
    ensures
        match_at(s, pat, p),
{
    assert(s.subrange(p, p + pat.len() as int) =~= pat);
}

/// Counting from a position past a leading block x scans only the tail y.
proof fn lemma_count_shift(x: Seq<u8>, y: Seq<u8>, pat: Seq<u8>, p: int)
    requires
        x.len() <= p,
    ensures
        count_matches_from(x + y, pat, p) == count_matches_from(y, pat, p - x.len()),
    decreases x.len() + y.len() - p + 1,
{
    let s = x + y;
    if p + pat.len() > s.len() {
        assert(count_matches_from(s, pat, p) == 0);
        assert(count_matches_from(y, pat, p - x.len()) == 0);
    } else {
        assert(match_at(s, pat, p) == match_at(y, pat, p - x.len())) by {
            if match_at(s, pat, p) {
                assert(y.subrange(p - x.len(), p - x.len() + pat.len() as int) =~= pat) by {
                    assert(forall|t: int|
                        0 <= t < pat.len() ==> y[p - x.len() + t] == s[p + t] && s[p + t]
                            == #[trigger] s.subrange(p, p + pat.len() as int)[t]);
                };
            }
            if match_at(y, pat, p - x.len()) {
                assert(s.subrange(p, p + pat.len() as int) =~= pat) by {
                    assert(forall|t: int|
                        0 <= t < pat.len() ==> s[p + t] == y[p - x.len() + t] && y[p - x.len() + t]
                            == #[trigger] y.subrange(p - x.len(), p - x.len() + pat.len() as int)[t]);
                };
            }
        };
        lemma_count_shift(x, y, pat, p + 1);
    }
}

/// In "Hello" repeated k >= 1 times, "llo" occurs exactly k times under the
/// overlapping-occurrence policy: each copy of "Hello" contributes one
/// match, and no match straddles the boundary between adjacent copies.
pub proof fn lemma_hello_occurrence_count(k: nat)
    requires
        1 <= k,
    ensures
        count_matches(repeat_seq(hello(), k), llo()) == k,
    decreases k,
{
    let s = repeat_seq(hello(), k);
    let t = repeat_seq(hello(), (k - 1) as nat);
    lemma_repeat_len(hello(), k);
    lemma_repeat_len(hello(), (k - 1) as nat);
    assert(s == hello() + t);
    assert(s.len() == 5 * k);
    assert(s[0] == 72u8 && s[1] == 101u8 && s[2] == 108u8 && s[3] == 108u8 && s[4] == 111u8);
    if k == 1 {
        assert(count_matches_from(s, llo(), 3) == 0);
        lemma_match(s, llo(), 2);
        lemma_no_match(s, llo(), 1, 0);
        lemma_no_match(s, llo(), 0, 0);
        assert(count_matches_from(s, llo(), 2) == 1);
        assert(count_matches_from(s, llo(), 1) == 1);
        assert(count_matches_from(s, llo(), 0) == 1);
    } else {
        lemma_hello_occurrence_count((k - 1) as nat);
        assert(t == hello() + repeat_seq(hello(), (k - 2) as nat));
        assert(s[5] == t[0] && s[6] == t[1] && s[7] == t[2]);
        assert(s[5] == 72u8 && s[6] == 101u8 && s[7] == 108u8);
        lemma_no_match(s, llo(), 0, 0);
        lemma_no_match(s, llo(), 1, 0);
        lemma_match(s, llo(), 2);
        lemma_no_match(s, llo(), 3, 1);
        lemma_no_match(s, llo(), 4, 1);
        lemma_count_shift(hello(), t, llo(), 5);
        assert(count_matches_from(s, llo(), 5) == count_matches_from(t, llo(), 0));
        assert(count_matches_from(s, llo(), 4) == count_matches_from(s, llo(), 5));
        assert(count_matches_from(s, llo(), 3) == count_matches_from(s, llo(), 4));
        assert(count_matches_from(s, llo(), 2) == 1 + count_matches_from(s, llo(), 3));
        assert(count_matches_from(s, llo(), 1) == count_matches_from(s, llo(), 2));
        assert(count_matches_from(s, llo(), 0) == count_matches_from(s, llo(), 1));
    }
}

/// Whether pat occurs in s at position p, checked byte by byte.
fn is_match(s: &[u8], pat: &[u8], p: usize) -> (r: bool)
    requires
        p + pat@.len() <= s@.len(),
    ensures
        r == match_at(s@, pat@, p as int),
{
    let m = pat.len();
    let n = s.len();
    let mut k: usize = 0;
    while k < m
        invariant
            k <= m,
            m == pat@.len(),
            n == s@.len(),
            p + m <= n,
            forall|t: int| 0 <= t < k ==> s@[p + t] == pat@[t],
        decreases m - k,
    {
        if s[p + k] != pat[k] {
            proof {
                lemma_no_match(s@, pat@, p as int, k as int);
            }
            return false;
        }
        k = k + 1;
    }
    proof {
        lemma_match(s@, pat@, p as int);
    }
    true
}

/// Counts the occurrences of substr in s, overlapping occurrences included:
/// after a match at position p the scan resumes at p + 1.
pub fn count_occurrences(s: &[u8], substr: &[u8]) -> (r: usize)
    requires
        substr@.len() >= 1,
    ensures
        r == count_matches(s@, substr@),
{
    let n = s.len();
    let m = substr.len();
    if m > n {
        proof {
            assert(count_matches_from(s@, substr@, 0) == 0);
        }
        return 0;
    }
    let mut count: usize = 0;
    let mut p: usize = 0;
    while p <= n - m
        invariant
            1 <= m <= n,
            n == s@.len(),
            m == substr@.len(),
            p <= n - m + 1,
            count <= p,
            count + count_matches_from(s@, substr@, p as int) == count_matches(s@, substr@),
        decreases n - m + 1 - p,
    {
        if is_match(s, substr, p) {
            count = count + 1;
        }
        p = p + 1;
    }
    proof {
        assert(count_matches_from(s@, substr@, (n - m + 1) as int) == 0);
    }
    count
}

/// Builds a buffer that holds pat repeated count times, with the storage
/// pre-sized to the exact final byte length.
pub fn build_repeated(pat: &[u8], count: usize) -> (r: Vec<u8>)
    requires
        pat@.len() * count <= usize::MAX,
    ensures
        r@ == repeat_seq(pat@, count as nat),
        r@.len() == pat@.len() * count,
{
    let m = pat.len();
    let mut v: Vec<u8> = Vec::with_capacity(m * count);
    let mut c: usize = 0;
    proof {
        assert(v@ =~= repeat_seq(pat@, 0));
    }
    while c < count
        invariant
            c <= count,
            m == pat@.len(),
            v@ == repeat_seq(pat@, c as nat),
        decreases count - c,
    {
        let mut k: usize = 0;
        proof {
            assert(v@ + pat@.subrange(0, 0) =~= v@);
        }
        let ghost base = v@;
        while k < m
            invariant
                k <= m,
                m == pat@.len(),
                v@ == base + pat@.subrange(0, k as int),
            decreases m - k,
        {
            v.push(pat[k]);
            proof {
                assert(base + pat@.subrange(0, k as int + 1) =~= (base + pat@.subrange(
                    0,
                    k as int,
                )).push(pat@[k as int]));
            }
            k = k + 1;
        }
        proof {
            assert(pat@.subrange(0, m as int) =~= pat@);
            lemma_repeat_snoc(pat@, c as nat);
        }
        c = c + 1;
    }
    proof {
        lemma_repeat_len(pat@, count as nat);
    }
    v
}

/// An executable copy of the "Hello" pattern.
pub fn hello_pattern() -> (r: Vec<u8>)
    ensures
        r@ == hello(),
{
    let mut v: Vec<u8> = Vec::with_capacity(5);
    v.push(72);
    v.push(101);
    v.push(108);
    v.push(108);
    v.push(111);
    proof {
        assert(v@ =~= hello());
    }
    v
}

/// An executable copy of the "llo" pattern.
pub fn llo_pattern() -> (r: Vec<u8>)
    ensures
        r@ == llo(),
{
    let mut v: Vec<u8> = Vec::with_capacity(3);
    v.push(108);
    v.push(108);
    v.push(111);
    proof {
        assert(v@ =~= llo());
    }
    v
}

/// The string benchmark kernel: build "Hello" repeated count times into a
/// pre-sized buffer, then count the overlapping occurrences of "llo" in it.
/// The buffer is five bytes per repetition and holds exactly one occurrence
/// per repetition.
pub fn string_workload(count: usize) -> (r: (usize, usize))
    requires
        5 * count <= usize::MAX,
    ensures
        r.0 == 5 * count,
        r.1 == count,
{
    let pat = hello_pattern();
    let buf = build_repeated(pat.as_slice(), count);
    let sub = llo_pattern();
    let occurrences = count_occurrences(buf.as_slice(), sub.as_slice());
    proof {
        if count >= 1 {
            lemma_hello_occurrence_count(count as nat);
        } else {
            assert(count_matches(repeat_seq(hello(), 0), llo()) == 0);
        }
    }
    (buf.len(), occurrences)
}

} // verus!
