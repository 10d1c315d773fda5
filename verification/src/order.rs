//! Order statistics of a sequence, specified by counting: the value at
//! position `k` of the sorted sequence is the value with at most `k` entries
//! below it and more than `k` entries at or below it.
use vstd::prelude::*;

verus! {

/// The number of the first `n` entries that are less than `x`.
pub open spec fn count_below(s: Seq<u32>, x: int, n: int) -> int
    decreases n,
{
    if n <= 0 {
        0
    } else if s[n - 1] < x {
        count_below(s, x, n - 1) + 1
    } else {
        count_below(s, x, n - 1)
    }
}

/// The number of the first `n` entries that are at most `x`.
pub open spec fn count_at_most(s: Seq<u32>, x: int, n: int) -> int
    decreases n,
{
    if n <= 0 {
        0
    } else if s[n - 1] <= x {
        count_at_most(s, x, n - 1) + 1
    } else {
        count_at_most(s, x, n - 1)
    }
}

/// `m` stands at position `k` when `s` is sorted in ascending order.
pub open spec fn is_kth_smallest(s: Seq<u32>, k: int, m: int) -> bool {
    count_below(s, m, s.len() as int) <= k < count_at_most(s, m, s.len() as int)
}

/// The value at position `k` of `s` sorted in ascending order.
pub open spec fn kth_smallest(s: Seq<u32>, k: int) -> int {
    choose|m: int| is_kth_smallest(s, k, m)
}

/// Counts lie between zero and the number of entries counted, and every
/// entry at most `x` is below any greater `y`.
pub proof fn lemma_counts(s: Seq<u32>, x: int, y: int, n: int)
    requires
        0 <= n,
        x < y,
    ensures
        0 <= count_below(s, x, n) <= count_at_most(s, x, n) <= count_below(s, y, n) <= n,
    decreases n,
{
    if n > 0 {
        lemma_counts(s, x, y, n - 1);
    }
}

/// At most one value stands at position `k`.
pub proof fn lemma_kth_smallest_unique(s: Seq<u32>, k: int, m1: int, m2: int)
    requires
        is_kth_smallest(s, k, m1),
        is_kth_smallest(s, k, m2),
    ensures
        m1 == m2,
{
    if m1 < m2 {
        lemma_counts(s, m1, m2, s.len() as int);
    } else if m2 < m1 {
        lemma_counts(s, m2, m1, s.len() as int);
    }
}

/// A value that meets the counting condition is the value at position `k`.
pub proof fn lemma_kth_smallest_is(s: Seq<u32>, k: int, m: int)
    requires
        is_kth_smallest(s, k, m),
    ensures
        kth_smallest(s, k) == m,
{
    lemma_kth_smallest_unique(s, k, kth_smallest(s, k), m);
}

/// When no entry lies strictly between `low` and `high`, the entries below
/// `high` are the entries at most `low`.
proof fn lemma_no_entry_between(s: Seq<u32>, low: int, high: int, n: int)
    requires
        0 <= n <= s.len(),
        low < high,
        forall|i: int| 0 <= i < s.len() && s[i] < high ==> s[i] <= low,
    ensures
        count_below(s, high, n) == count_at_most(s, low, n),
    decreases n,
{
    if n > 0 {
        lemma_no_entry_between(s, low, high, n - 1);
    }
}

/// When no entry is below `high`, none is counted below it.
proof fn lemma_none_below(s: Seq<u32>, high: int, n: int)
    requires
        0 <= n <= s.len(),
        forall|i: int| 0 <= i < s.len() ==> s[i] >= high,
    ensures
        count_below(s, high, n) == 0,
    decreases n,
{
    if n > 0 {
        lemma_none_below(s, high, n - 1);
    }
}

/// The number of entries of `s` that are at most `x`.
fn count_up_to(s: &[u32], x: u32) -> (c: usize)
    ensures
        c == count_at_most(s@, x as int, s@.len() as int),
{
    let mut c: usize = 0;
    for i in 0..s.len()
        invariant
            c == count_at_most(s@, x as int, i as int),
            c <= i,
    {
        if s[i] <= x {
            c = c + 1;
        }
    }
    c
}

/// Selects the value at position `k` of the sorted sequence.
pub fn select_kth(s: &[u32], k: usize) -> (m: u32)
    requires
        k < s@.len(),
    ensures
        is_kth_smallest(s@, k as int, m as int),
        m == kth_smallest(s@, k as int),
        s@.contains(m),
{
    let n = s.len();
    // The least entry with more than `k` entries at or below it.
    let mut best: u32 = 0xffff_ffff;
    let mut found: bool = false;
    for i in 0..n
        invariant
            n == s@.len(),
            k < n,
            found ==> s@.contains(best) && count_at_most(s@, best as int, n as int) > k,
            forall|j: int|
                0 <= j < i && count_at_most(s@, s@[j] as int, n as int) > k ==> found && best
                    <= s@[j],
    {
        let x = s[i];
        if count_up_to(s, x) > k && (!found || x < best) {
            best = x;
            found = true;
        }
    }
    // The greatest entry below it, if there is one.
    let mut low: u32 = 0;
    let mut any_below: bool = false;
    for i in 0..n
        invariant
            n == s@.len(),
            any_below ==> s@.contains(low) && low < best,
            forall|j: int| 0 <= j < i && s@[j] < best ==> any_below && s@[j] <= low,
    {
        let x = s[i];
        if x < best && (!any_below || x > low) {
            low = x;
            any_below = true;
        }
    }
    proof {
        lemma_greatest_entry_counts_all(s@, n as int);
        assert(found);
        if any_below {
            assert(count_at_most(s@, low as int, n as int) <= k);
            lemma_no_entry_between(s@, low as int, best as int, n as int);
        } else {
            lemma_none_below(s@, best as int, n as int);
        }
        lemma_kth_smallest_is(s@, k as int, best as int);
    }
    best
}

/// In a sequence that is not empty, some entry has every entry at or below
/// it.
proof fn lemma_greatest_entry_counts_all(s: Seq<u32>, n: int)
    requires
        0 < n <= s.len(),
    ensures
        exists|j: int| 0 <= j < n && count_at_most(s, s[j] as int, n) == n,
    decreases n,
{
    if n == 1 {
        assert(count_at_most(s, s[0] as int, 1) == 1) by {
            reveal_with_fuel(count_at_most, 2);
        }
    } else {
        lemma_greatest_entry_counts_all(s, n - 1);
        let j = choose|j: int| 0 <= j < n - 1 && count_at_most(s, s[j] as int, n - 1) == n - 1;
        if s[n - 1] <= s[j] {
            assert(count_at_most(s, s[j] as int, n) == n);
        } else {
            lemma_all_at_most(s, s[j] as int, s[n - 1] as int, n - 1);
            assert(count_at_most(s, s[n - 1] as int, n) == n);
        }
    }
}

/// If every one of the first `n` entries is at most `x`, it is at most any
/// greater `y`.
proof fn lemma_all_at_most(s: Seq<u32>, x: int, y: int, n: int)
    requires
        0 <= n <= s.len(),
        x <= y,
        count_at_most(s, x, n) == n,
    ensures
        count_at_most(s, y, n) == n,
    decreases n,
{
    if n > 0 {
        lemma_count_at_most_bound(s, x, n - 1);
        lemma_all_at_most(s, x, y, n - 1);
    }
}

proof fn lemma_count_at_most_bound(s: Seq<u32>, x: int, n: int)
    requires
        0 <= n,
    ensures
        0 <= count_at_most(s, x, n) <= n,
    decreases n,
{
    if n > 0 {
        lemma_count_at_most_bound(s, x, n - 1);
    }
}

} // verus!
