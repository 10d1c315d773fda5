//! Keeping the best few of a stream of scored candidates, in ranking order.
use vstd::prelude::*;

verus! {

/// A scored candidate. The tag tells candidates apart; of two candidates with
/// the same score the one with the smaller tag ranks first.
#[derive(Clone, Copy, Debug)]
pub struct Ranked {
    pub score: u32,
    pub tag: usize,
}

/// `a` ranks strictly before `b`: by higher score, then by smaller tag.
pub open spec fn ranks_before(a: Ranked, b: Ranked) -> bool {
    a.score > b.score || (a.score == b.score && a.tag < b.tag)
}

/// `s` is in ranking order, with no two entries of equal rank.
pub open spec fn is_ranked(s: Seq<Ranked>) -> bool {
    forall|i: int, j: int| 0 <= i < j < s.len() ==> ranks_before(#[trigger] s[i], #[trigger] s[j])
}

/// `s` holds an entry with the given tag.
pub open spec fn holds_tag(s: Seq<Ranked>, tag: usize) -> bool {
    exists|i: int| 0 <= i < s.len() && (#[trigger] s[i]).tag == tag
}

/// `x` is kept in `top` or, `top` being full, ranks after its last entry.
pub open spec fn kept_or_outranked(top: Seq<Ranked>, limit: int, x: Ranked) -> bool {
    top.contains(x) || (top.len() == limit && ranks_before(top[limit - 1], x))
}

/// Tells whether `a` ranks strictly before `b`.
pub fn outranks(a: Ranked, b: Ranked) -> (r: bool)
    ensures
        r == ranks_before(a, b),
{
    a.score > b.score || (a.score == b.score && a.tag < b.tag)
}

/// Offers `item` to a ranked list of at most `limit` entries: the item takes
/// its place in the ranking order, and the last entry leaves if the list
/// would grow beyond `limit`.
pub fn insert_ranked(top: &mut Vec<Ranked>, item: Ranked, limit: usize)
    requires
        1 <= limit,
        old(top)@.len() <= limit,
        is_ranked(old(top)@),
        !holds_tag(old(top)@, item.tag),
    ensures
        is_ranked(final(top)@),
        final(top)@.len() <= limit,
        final(top)@.len() == if old(top)@.len() < limit {
            old(top)@.len() + 1
        } else {
            limit as nat
        },
        forall|i: int|
            0 <= i < final(top)@.len() ==> (#[trigger] final(top)@[i]) == item || old(
                top,
            )@.contains(final(top)@[i]),
        kept_or_outranked(final(top)@, limit as int, item),
        forall|i: int|
            0 <= i < old(top)@.len() ==> kept_or_outranked(
                final(top)@,
                limit as int,
                #[trigger] old(top)@[i],
            ),
        old(top)@.len() == limit ==> final(top)@[limit - 1] == old(top)@[limit - 1] || ranks_before(
            final(top)@[limit - 1],
            old(top)@[limit - 1],
        ),
{
    let ghost before = top@;
    let mut at: usize = top.len();
    while at > 0 && outranks(item, top[at - 1])
        invariant
            top@ == before,
            at <= top@.len(),
            forall|j: int| at <= j < top@.len() ==> ranks_before(item, #[trigger] top@[j]),
        decreases at,
    {
        at = at - 1;
    }
    assert(forall|j: int| 0 <= j < at ==> ranks_before(#[trigger] before[j], item)) by {
        if at > 0 {
            let last = before[at - 1];
            assert(!ranks_before(item, last));
            assert(last.tag != item.tag);
            assert(ranks_before(last, item));
            assert forall|j: int| 0 <= j < at implies ranks_before(#[trigger] before[j], item) by {
                if j < at - 1 {
                    assert(ranks_before(before[j], before[at - 1]));
                }
            }
        }
    }
    if at < limit {
        top.insert(at, item);
        let ghost grown = top@;
        assert(grown == before.insert(at as int, item));
        assert(grown[at as int] == item);
        assert(forall|j: int| 0 <= j < at ==> grown[j] == before[j]);
        assert(forall|j: int| at < j < grown.len() ==> grown[j] == before[j - 1]);
        assert(is_ranked(grown)) by {
            assert forall|i: int, j: int| 0 <= i < j < grown.len() implies ranks_before(
                #[trigger] grown[i],
                #[trigger] grown[j],
            ) by {
                if j < at {
                    assert(ranks_before(before[i], before[j]));
                } else if j == at {
                    assert(ranks_before(before[i], item));
                } else if i < at {
                    assert(ranks_before(before[i], before[j - 1]));
                } else if i == at {
                    assert(ranks_before(item, before[j - 1]));
                } else {
                    assert(ranks_before(before[i - 1], before[j - 1]));
                }
            }
        }
        assert(forall|i: int| 0 <= i < before.len() ==> grown.contains(#[trigger] before[i])) by {
            assert forall|i: int| 0 <= i < before.len() implies grown.contains(
                #[trigger] before[i],
            ) by {
                if i < at {
                    assert(grown[i] == before[i]);
                } else {
                    assert(grown[i + 1] == before[i]);
                }
            }
        }
        assert(grown.contains(item));
        if top.len() > limit {
            top.truncate(limit);
            let ghost cut = top@;
            assert(cut == grown.subrange(0, limit as int));
            assert(grown.len() == limit + 1);
            assert(forall|i: int| 0 <= i < limit ==> cut[i] == grown[i]);
            proof {
                if before.len() == limit as nat {
                    if at == limit - 1 {
                        assert(cut[limit - 1] == item);
                        assert(ranks_before(item, before[limit - 1]));
                    } else {
                        assert(cut[limit - 1] == before[limit - 2]);
                        assert(ranks_before(before[limit - 2], before[limit - 1]));
                    }
                }
            }
            assert forall|x: Ranked| grown.contains(x) implies kept_or_outranked(
                cut,
                limit as int,
                x,
            ) by {
                let i = choose|i: int| 0 <= i < grown.len() && grown[i] == x;
                if i < limit {
                    assert(cut[i] == x);
                } else {
                    assert(ranks_before(grown[limit - 1], grown[i]));
                }
            }
            assert forall|i: int| 0 <= i < before.len() implies kept_or_outranked(
                cut,
                limit as int,
                #[trigger] before[i],
            ) by {
                assert(grown.contains(before[i]));
            }
            assert forall|i: int| 0 <= i < cut.len() implies (#[trigger] cut[i]) == item
                || before.contains(cut[i]) by {
                if i < at {
                    assert(before[i] == cut[i]);
                } else if i > at {
                    assert(before[i - 1] == cut[i]);
                }
            }
        } else {
            assert forall|i: int| 0 <= i < grown.len() implies (#[trigger] grown[i]) == item
                || before.contains(grown[i]) by {
                if i < at {
                    assert(before[i] == grown[i]);
                } else if i > at {
                    assert(before[i - 1] == grown[i]);
                }
            }
        }
    } else {
        assert(at == limit && before.len() == limit);
        assert(ranks_before(before[limit - 1], item));
        assert forall|i: int| 0 <= i < before.len() implies kept_or_outranked(
            before,
            limit as int,
            #[trigger] before[i],
        ) by {
            assert(before.contains(before[i]));
        }
        assert forall|i: int| 0 <= i < before.len() implies (#[trigger] before[i]) == item
            || before.contains(before[i]) by {
            assert(before.contains(before[i]));
        }
    }
}

/// `top` holds the best of the eligible candidates: it is in ranking order,
/// no longer than `limit`, made of eligible candidates, and every eligible
/// candidate is kept in it or ranks after its last entry.
pub open spec fn is_top_ranking(top: Seq<Ranked>, limit: int, eligible: spec_fn(Ranked) -> bool)
    -> bool {
    &&& is_ranked(top)
    &&& top.len() <= limit
    &&& forall|i: int| 0 <= i < top.len() ==> eligible(#[trigger] top[i])
    &&& forall|x: Ranked| #[trigger] eligible(x) ==> kept_or_outranked(top, limit, x)
}

/// Entry `i` of one top ranking is entry `i` of the other, or ranks after it.
proof fn lemma_entry_equal_or_later(
    a: Seq<Ranked>,
    b: Seq<Ranked>,
    limit: int,
    eligible: spec_fn(Ranked) -> bool,
    i: int,
)
    requires
        is_top_ranking(a, limit, eligible),
        is_top_ranking(b, limit, eligible),
        0 <= i < a.len(),
        i < b.len(),
        forall|j: int| 0 <= j < i ==> a[j] == b[j],
    ensures
        a[i] == b[i] || ranks_before(b[i], a[i]),
{
    let x = a[i];
    assert(eligible(x));
    assert(kept_or_outranked(b, limit, x));
    if b.contains(x) {
        let j = choose|j: int| 0 <= j < b.len() && b[j] == x;
        if j < i {
            assert(a[j] == b[j]);
            assert(ranks_before(a[j], a[i]));
        } else if j > i {
            assert(ranks_before(b[i], b[j]));
        }
    } else {
        if i < limit - 1 {
            assert(ranks_before(b[i], b[limit - 1]));
        }
    }
}

/// Two top rankings agree on their common length.
proof fn lemma_top_rankings_agree(
    a: Seq<Ranked>,
    b: Seq<Ranked>,
    limit: int,
    eligible: spec_fn(Ranked) -> bool,
    n: int,
)
    requires
        is_top_ranking(a, limit, eligible),
        is_top_ranking(b, limit, eligible),
        0 <= n <= a.len(),
        n <= b.len(),
    ensures
        forall|j: int| 0 <= j < n ==> a[j] == b[j],
    decreases n,
{
    if n > 0 {
        lemma_top_rankings_agree(a, b, limit, eligible, n - 1);
        lemma_entry_equal_or_later(a, b, limit, eligible, n - 1);
        lemma_entry_equal_or_later(b, a, limit, eligible, n - 1);
    }
}

/// The best of the eligible candidates are determined: two top rankings of
/// the same candidates are the same sequence.
pub proof fn lemma_top_ranking_unique(
    a: Seq<Ranked>,
    b: Seq<Ranked>,
    limit: int,
    eligible: spec_fn(Ranked) -> bool,
)
    requires
        is_top_ranking(a, limit, eligible),
        is_top_ranking(b, limit, eligible),
    ensures
        a == b,
{
    let n = if a.len() <= b.len() {
        a.len() as int
    } else {
        b.len() as int
    };
    lemma_top_rankings_agree(a, b, limit, eligible, n);
    if a.len() > n {
        lemma_no_longer(b, a, limit, eligible);
    }
    if b.len() > n {
        lemma_no_longer(a, b, limit, eligible);
    }
    assert(a =~= b);
}

/// A top ranking that agrees with another on all of its own entries is as
/// long as the other.
proof fn lemma_no_longer(
    short: Seq<Ranked>,
    long: Seq<Ranked>,
    limit: int,
    eligible: spec_fn(Ranked) -> bool,
)
    requires
        is_top_ranking(short, limit, eligible),
        is_top_ranking(long, limit, eligible),
        short.len() <= long.len(),
        forall|j: int| 0 <= j < short.len() ==> short[j] == long[j],
    ensures
        short.len() == long.len(),
{
    if short.len() < long.len() {
        let m = short.len() as int;
        let x = long[m];
        assert(eligible(x));
        assert(kept_or_outranked(short, limit, x));
        if short.contains(x) {
            let j = choose|j: int| 0 <= j < short.len() && short[j] == x;
            assert(long[j] == short[j]);
            assert(ranks_before(long[j], long[m]));
        }
    }
}

} // verus!
