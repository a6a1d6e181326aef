use vstd::prelude::*;

verus! {

/// The sum of the first `n` items of `s`.
pub open spec fn sum_upto(s: Seq<int>, n: int) -> int
    decreases n,
{
    if n <= 0 {
        0
    } else {
        sum_upto(s, n - 1) + s[n - 1]
    }
}

/// The sum of all items of `s`.
pub open spec fn sum(s: Seq<int>) -> int {
    sum_upto(s, s.len() as int)
}

/// Whether no item of `s` is negative.
pub open spec fn all_nonneg(s: Seq<int>) -> bool {
    forall|i: int| 0 <= i < s.len() ==> s[i] >= 0
}

/// Sums of longer prefixes of a sequence without negative items are larger.
pub proof fn lemma_sum_upto_monotone(s: Seq<int>, m: int, n: int)
    requires
        all_nonneg(s),
        0 <= m <= n <= s.len(),
    ensures
        0 <= sum_upto(s, m) <= sum_upto(s, n),
    decreases n,
{
    if m == 0 {
        if n > 0 {
            lemma_sum_upto_monotone(s, 0, n - 1);
        }
    } else if m < n {
        lemma_sum_upto_monotone(s, m, n - 1);
    } else {
        lemma_sum_upto_monotone(s, m - 1, n - 1);
    }
}

/// Sequences that agree on their first `n` items have the same sum there.
pub proof fn lemma_sum_upto_agree(s: Seq<int>, t: Seq<int>, n: int)
    requires
        0 <= n <= s.len(),
        n <= t.len(),
        forall|i: int| 0 <= i < n ==> s[i] == t[i],
    ensures
        sum_upto(s, n) == sum_upto(t, n),
    decreases n,
{
    if n > 0 {
        lemma_sum_upto_agree(s, t, n - 1);
    }
}

/// The sum of a sequence with one more item.
pub proof fn lemma_sum_push(s: Seq<int>, x: int)
    ensures
        sum(s.push(x)) == sum(s) + x,
{
    lemma_sum_upto_agree(s, s.push(x), s.len() as int);
}

/// A sequence with one item replaced sums up to the old sum, less the old
/// item, and the new one.
pub proof fn lemma_sum_upto_update(s: Seq<int>, i: int, v: int, n: int)
    requires
        0 <= i < s.len(),
        0 <= n <= s.len(),
    ensures
        sum_upto(s.update(i, v), n) == if i < n {
            sum_upto(s, n) - s[i] + v
        } else {
            sum_upto(s, n)
        },
    decreases n,
{
    if n > 0 {
        lemma_sum_upto_update(s, i, v, n - 1);
    }
}

/// A sequence of zeros sums up to zero.
pub proof fn lemma_sum_upto_zeros(s: Seq<int>, n: int)
    requires
        0 <= n <= s.len(),
        forall|i: int| 0 <= i < s.len() ==> s[i] == 0,
    ensures
        sum_upto(s, n) == 0,
    decreases n,
{
    if n > 0 {
        lemma_sum_upto_zeros(s, n - 1);
    }
}

/// The least of `a` and `b`.
pub open spec fn min_int(a: int, b: int) -> int {
    if a <= b {
        a
    } else {
        b
    }
}

/// The greatest of `a` and `b`.
pub open spec fn max_int(a: int, b: int) -> int {
    if a >= b {
        a
    } else {
        b
    }
}

} // verus!
