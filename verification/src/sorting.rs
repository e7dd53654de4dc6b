//! Keeping the candidate list in ranked order: a deterministic insertion sort,
//! stated as a specification function and implemented by a verified sort, so
//! that every contract that re-sorts the list can pin its result exactly.

use vstd::prelude::*;

use crate::candidate::{addr_of, all_wf, rank_ge, unique_addrs, WifiConfig};

verus! {

/// The list is in descending rank order: no later entry outranks an earlier
/// one, so the entry to try first stands at index 0.
pub open spec fn sorted_ranked(s: Seq<WifiConfig>) -> bool {
    forall|i: int, j: int| 0 <= i < j < s.len() ==> rank_ge(s[i], s[j])
}

/// Inserts `c` into a descending list, after every entry that ranks at least
/// as high as `c`.
pub open spec fn insert_ranked(s: Seq<WifiConfig>, c: WifiConfig) -> Seq<WifiConfig>
    decreases s.len(),
{
    if s.len() == 0 {
        seq![c]
    } else if rank_ge(s[0], c) {
        seq![s[0]] + insert_ranked(s.drop_first(), c)
    } else {
        seq![c] + s
    }
}

/// Sorts the list into descending rank order, deterministically: entries that
/// tie in rank keep their relative order.
pub open spec fn sort_ranked(s: Seq<WifiConfig>) -> Seq<WifiConfig>
    decreases s.len(),
{
    if s.len() == 0 {
        Seq::empty()
    } else {
        insert_ranked(sort_ranked(s.drop_last()), s.last())
    }
}

pub proof fn lemma_insert_ranked_len(s: Seq<WifiConfig>, c: WifiConfig)
    ensures
        insert_ranked(s, c).len() == s.len() + 1,
    decreases s.len(),
{
    if s.len() > 0 && rank_ge(s[0], c) {
        lemma_insert_ranked_len(s.drop_first(), c);
    }
}

/// The elements of the list after an insertion are the old ones and `c`.
pub proof fn lemma_insert_ranked_contains(s: Seq<WifiConfig>, c: WifiConfig)
    ensures
        forall|x: WifiConfig|
            #[trigger] insert_ranked(s, c).contains(x) <==> (s.contains(x) || x == c),
    decreases s.len(),
{
    if s.len() == 0 {
        assert(insert_ranked(s, c) == seq![c]);
        assert(insert_ranked(s, c)[0] == c);
        assert(forall|x: WifiConfig| s.contains(x) ==> insert_ranked(s, c).contains(x));
    } else if rank_ge(s[0], c) {
        let rest = s.drop_first();
        lemma_insert_ranked_contains(rest, c);
        let r = insert_ranked(s, c);
        assert(r == seq![s[0]] + insert_ranked(rest, c));
        assert forall|x: WifiConfig| r.contains(x) implies (s.contains(x) || x == c) by {
            let i = choose|i: int| 0 <= i < r.len() && r[i] == x;
            if i == 0 {
                assert(s[0] == x);
            } else {
                assert(insert_ranked(rest, c)[i - 1] == x);
                assert(insert_ranked(rest, c).contains(x));
                if rest.contains(x) {
                    let j = choose|j: int| 0 <= j < rest.len() && rest[j] == x;
                    assert(s[j + 1] == x);
                }
            }
        }
        assert forall|x: WifiConfig| (s.contains(x) || x == c) implies r.contains(x) by {
            if x == c {
                assert(insert_ranked(rest, c).contains(x));
                let j = choose|j: int| 0 <= j < insert_ranked(rest, c).len() && insert_ranked(
                    rest,
                    c,
                )[j] == x;
                assert(r[j + 1] == x);
            } else if s.contains(x) {
                let i = choose|i: int| 0 <= i < s.len() && s[i] == x;
                if i == 0 {
                    assert(r[0] == x);
                } else {
                    assert(rest[i - 1] == x);
                    assert(insert_ranked(rest, c).contains(x));
                    let j = choose|j: int|
                        0 <= j < insert_ranked(rest, c).len() && insert_ranked(rest, c)[j] == x;
                    assert(r[j + 1] == x);
                }
            }
        }
    } else {
        let r = insert_ranked(s, c);
        assert(r == seq![c] + s);
        assert(r[0] == c);
        assert forall|x: WifiConfig| r.contains(x) implies (s.contains(x) || x == c) by {
            let i = choose|i: int| 0 <= i < r.len() && r[i] == x;
            if i > 0 {
                assert(s[i - 1] == x);
            }
        }
        assert forall|x: WifiConfig| s.contains(x) implies r.contains(x) by {
            let i = choose|i: int| 0 <= i < s.len() && s[i] == x;
            assert(r[i + 1] == x);
        }
    }
}

/// Inserting into a sorted list keeps it sorted.
pub proof fn lemma_insert_ranked_sorted(s: Seq<WifiConfig>, c: WifiConfig)
    requires
        sorted_ranked(s),
    ensures
        sorted_ranked(insert_ranked(s, c)),
    decreases s.len(),
{
    if s.len() == 0 {
    } else if rank_ge(s[0], c) {
        let rest = s.drop_first();
        assert(sorted_ranked(rest));
        lemma_insert_ranked_sorted(rest, c);
        lemma_insert_ranked_contains(rest, c);
        lemma_insert_ranked_len(rest, c);
        let r = insert_ranked(s, c);
        let ins = insert_ranked(rest, c);
        assert forall|i: int, j: int| 0 <= i < j < r.len() implies rank_ge(r[i], r[j]) by {
            if i == 0 {
                assert(r[j] == ins[j - 1]);
                assert(ins.contains(ins[j - 1]));
                if rest.contains(ins[j - 1]) {
                    let k = choose|k: int| 0 <= k < rest.len() && rest[k] == ins[j - 1];
                    assert(s[k + 1] == rest[k]);
                    assert(rank_ge(s[0], s[k + 1]));
                }
            } else {
                assert(r[i] == ins[i - 1] && r[j] == ins[j - 1]);
            }
        }
    } else {
        let r = insert_ranked(s, c);
        assert forall|i: int, j: int| 0 <= i < j < r.len() implies rank_ge(r[i], r[j]) by {
            if i == 0 {
                assert(r[j] == s[j - 1]);
                if j > 1 {
                    assert(rank_ge(s[0], s[j - 1]));
                }
            } else {
                assert(r[i] == s[i - 1] && r[j] == s[j - 1]);
            }
        }
    }
}

/// Inserting an entry whose address is fresh keeps the addresses unique.
pub proof fn lemma_insert_ranked_unique(s: Seq<WifiConfig>, c: WifiConfig)
    requires
        unique_addrs(s),
        forall|i: int| 0 <= i < s.len() ==> addr_of(s[i]) != addr_of(c),
    ensures
        unique_addrs(insert_ranked(s, c)),
    decreases s.len(),
{
    if s.len() == 0 {
    } else if rank_ge(s[0], c) {
        let rest = s.drop_first();
        lemma_insert_ranked_unique(rest, c);
        lemma_insert_ranked_contains(rest, c);
        lemma_insert_ranked_len(rest, c);
        let r = insert_ranked(s, c);
        let ins = insert_ranked(rest, c);
        assert forall|i: int, j: int| 0 <= i < j < r.len() implies addr_of(r[i]) != addr_of(
            r[j],
        ) by {
            if i == 0 {
                assert(r[j] == ins[j - 1]);
                assert(ins.contains(ins[j - 1]));
                if rest.contains(ins[j - 1]) {
                    let k = choose|k: int| 0 <= k < rest.len() && rest[k] == ins[j - 1];
                    assert(s[k + 1] == rest[k]);
                    assert(addr_of(s[0]) != addr_of(s[k + 1]));
                }
            } else {
                assert(r[i] == ins[i - 1] && r[j] == ins[j - 1]);
            }
        }
    } else {
        let r = insert_ranked(s, c);
        assert forall|i: int, j: int| 0 <= i < j < r.len() implies addr_of(r[i]) != addr_of(
            r[j],
        ) by {
            if i == 0 {
                assert(r[j] == s[j - 1]);
            } else {
                assert(r[i] == s[i - 1] && r[j] == s[j - 1]);
            }
        }
    }
}

/// Inserting a well-formed entry into a well-formed list keeps it so.
pub proof fn lemma_insert_ranked_wf(s: Seq<WifiConfig>, c: WifiConfig)
    requires
        all_wf(s),
        c.wf(),
    ensures
        all_wf(insert_ranked(s, c)),
{
    lemma_insert_ranked_contains(s, c);
    lemma_insert_ranked_len(s, c);
    let r = insert_ranked(s, c);
    assert forall|i: int| 0 <= i < r.len() implies (#[trigger] r[i]).wf() by {
        assert(r.contains(r[i]));
        if s.contains(r[i]) {
            let k = choose|k: int| 0 <= k < s.len() && s[k] == r[i];
            assert(s[k].wf());
        }
    }
}

pub proof fn lemma_sort_ranked_len(s: Seq<WifiConfig>)
    ensures
        sort_ranked(s).len() == s.len(),
    decreases s.len(),
{
    if s.len() > 0 {
        lemma_sort_ranked_len(s.drop_last());
        lemma_insert_ranked_len(sort_ranked(s.drop_last()), s.last());
    }
}

/// Sorting neither adds nor loses elements.
pub proof fn lemma_sort_ranked_contains(s: Seq<WifiConfig>)
    ensures
        forall|x: WifiConfig| #[trigger] sort_ranked(s).contains(x) <==> s.contains(x),
    decreases s.len(),
{
    if s.len() > 0 {
        let rest = s.drop_last();
        lemma_sort_ranked_contains(rest);
        lemma_insert_ranked_contains(sort_ranked(rest), s.last());
        assert forall|x: WifiConfig| s.contains(x) implies sort_ranked(s).contains(x) by {
            let i = choose|i: int| 0 <= i < s.len() && s[i] == x;
            if i < s.len() - 1 {
                assert(rest[i] == x);
                assert(rest.contains(x));
                assert(sort_ranked(rest).contains(x));
            } else {
                assert(s.last() == x);
            }
            assert(insert_ranked(sort_ranked(rest), s.last()).contains(x));
        }
        assert forall|x: WifiConfig| sort_ranked(s).contains(x) implies s.contains(x) by {
            assert(insert_ranked(sort_ranked(rest), s.last()).contains(x));
            if sort_ranked(rest).contains(x) {
                assert(rest.contains(x));
                let i = choose|i: int| 0 <= i < rest.len() && rest[i] == x;
                assert(s[i] == x);
            } else {
                assert(x == s.last());
                assert(s[s.len() - 1] == x);
            }
        }
    }
}

/// The result of `sort_ranked` is sorted.
pub proof fn lemma_sort_ranked_sorted(s: Seq<WifiConfig>)
    ensures
        sorted_ranked(sort_ranked(s)),
    decreases s.len(),
{
    if s.len() > 0 {
        lemma_sort_ranked_sorted(s.drop_last());
        lemma_insert_ranked_sorted(sort_ranked(s.drop_last()), s.last());
    }
}

/// Sorting a list of unique addresses yields a list of unique addresses.
pub proof fn lemma_sort_ranked_unique(s: Seq<WifiConfig>)
    requires
        unique_addrs(s),
    ensures
        unique_addrs(sort_ranked(s)),
    decreases s.len(),
{
    if s.len() > 0 {
        let rest = s.drop_last();
        assert(unique_addrs(rest));
        lemma_sort_ranked_unique(rest);
        lemma_sort_ranked_contains(rest);
        lemma_sort_ranked_len(rest);
        assert forall|i: int|
            0 <= i < sort_ranked(rest).len() implies addr_of(sort_ranked(rest)[i]) != addr_of(
            s.last(),
        ) by {
            assert(sort_ranked(rest).contains(sort_ranked(rest)[i]));
            assert(rest.contains(sort_ranked(rest)[i]));
            let k = choose|k: int| 0 <= k < rest.len() && rest[k] == sort_ranked(rest)[i];
            assert(rest[k] == s[k]);
            assert(addr_of(s[k]) != addr_of(s[s.len() - 1]));
        }
        lemma_insert_ranked_unique(sort_ranked(rest), s.last());
    }
}

/// Sorting a well-formed list yields a well-formed list.
pub proof fn lemma_sort_ranked_wf(s: Seq<WifiConfig>)
    requires
        all_wf(s),
    ensures
        all_wf(sort_ranked(s)),
    decreases s.len(),
{
    if s.len() > 0 {
        let rest = s.drop_last();
        assert(all_wf(rest)) by {
            assert(forall|i: int| 0 <= i < rest.len() ==> rest[i] == s[i]);
        }
        lemma_sort_ranked_wf(rest);
        assert(s.last().wf());
        lemma_insert_ranked_wf(sort_ranked(rest), s.last());
    }
}

/// In a sorted list the first entry outranks (or ties) every entry.
pub proof fn lemma_sorted_first_is_best(s: Seq<WifiConfig>)
    requires
        sorted_ranked(s),
        s.len() > 0,
    ensures
        forall|i: int| 0 <= i < s.len() ==> rank_ge(s[0], s[i]),
{
}

/// Where an insertion lands: before the first entry that ranks strictly below
/// `c`, after every entry that ranks at least as high.
pub proof fn lemma_insert_ranked_at(s: Seq<WifiConfig>, c: WifiConfig, p: int)
    requires
        0 <= p <= s.len(),
        forall|k: int| 0 <= k < p ==> rank_ge(s[k], c),
        p < s.len() ==> !rank_ge(s[p], c),
    ensures
        insert_ranked(s, c) == s.insert(p, c),
    decreases p,
{
    if p == 0 {
        assert(insert_ranked(s, c) =~= s.insert(0, c));
    } else {
        assert(rank_ge(s[0], c));
        let rest = s.drop_first();
        lemma_insert_ranked_at(rest, c, p - 1);
        assert(insert_ranked(s, c) == seq![s[0]] + rest.insert(p - 1, c));
        assert(seq![s[0]] + rest.insert(p - 1, c) =~= s.insert(p, c));
    }
}

/// Whether `a` ranks at least as high as `b`.
pub fn outranks_or_ties(a: &WifiConfig, b: &WifiConfig) -> (r: bool)
    ensures
        r == rank_ge(*a, *b),
{
    match a.cmp(b) {
        core::cmp::Ordering::Less => false,
        _ => true,
    }
}

/// Inserts `c` at its ranked position.
fn insert_sorted(v: &mut Vec<WifiConfig>, c: WifiConfig)
    ensures
        final(v)@ == insert_ranked(old(v)@, c),
{
    let mut p: usize = 0;
    loop
        invariant
            p <= v@.len(),
            v@ == old(v)@,
            forall|k: int| 0 <= k < p ==> rank_ge(v@[k], c),
        ensures
            p <= v@.len(),
            v@ == old(v)@,
            forall|k: int| 0 <= k < p ==> rank_ge(v@[k], c),
            p < v@.len() ==> !rank_ge(v@[p as int], c),
        decreases v@.len() - p,
    {
        if p == v.len() {
            break ;
        }
        if !outranks_or_ties(&v[p], &c) {
            break ;
        }
        p += 1;
    }
    proof {
        lemma_insert_ranked_at(v@, c, p as int);
    }
    v.insert(p, c);
}

/// Sorts the candidate list into descending rank order.
pub fn sort_candidates(v: &mut Vec<WifiConfig>)
    ensures
        final(v)@ == sort_ranked(old(v)@),
{
    let mut out: Vec<WifiConfig> = Vec::new();
    let mut i: usize = 0;
    proof {
        assert(old(v)@.subrange(0, 0) =~= Seq::<WifiConfig>::empty());
    }
    while i < v.len()
        invariant
            i <= v@.len(),
            v@ == old(v)@,
            out@ == sort_ranked(v@.subrange(0, i as int)),
        decreases v@.len() - i,
    {
        let ghost pre = v@.subrange(0, i as int);
        let c = v[i].clone();
        insert_sorted(&mut out, c);
        proof {
            assert(v@.subrange(0, i + 1 as int).drop_last() =~= pre);
            assert(v@.subrange(0, i + 1 as int).last() == v@[i as int]);
        }
        i += 1;
    }
    proof {
        assert(v@.subrange(0, v@.len() as int) =~= v@);
    }
    *v = out;
}

} // verus!
