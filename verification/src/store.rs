//! The candidate store: the shared ranked list. A full scan replaces the set
//! wholesale, but the connection-outcome history of an address survives the
//! replacement; outcome updates touch exactly the entry with that address.

use vstd::prelude::*;

use crate::candidate::{addr_of, all_wf, rank_ge, unique_addrs, ConnectOutcome, WifiConfig};
use crate::candidate::bssid_eq;
use crate::sorting::{
    lemma_sort_ranked_contains, lemma_sort_ranked_len, lemma_sort_ranked_sorted,
    lemma_sort_ranked_unique, lemma_sort_ranked_wf, lemma_sorted_first_is_best, sort_candidates,
    sort_ranked, sorted_ranked,
};

verus! {

/// `c` with its outcome replaced by `o`.
pub open spec fn with_outcome(c: WifiConfig, o: ConnectOutcome) -> WifiConfig {
    WifiConfig {
        bssid: c.bssid,
        ssid: c.ssid,
        signal_strength: c.signal_strength,
        connect_outcome: o,
    }
}

/// The outcome stored for address `a`: that of the first entry of `s` with
/// that address, or nothing if no entry has it.
pub open spec fn lookup_outcome(s: Seq<WifiConfig>, a: Seq<u8>) -> Option<ConnectOutcome>
    decreases s.len(),
{
    if s.len() == 0 {
        None
    } else if addr_of(s[0]) == a {
        Some(s[0].connect_outcome)
    } else {
        lookup_outcome(s.drop_first(), a)
    }
}

/// Some entry of `s` has address `a`.
pub open spec fn has_addr(s: Seq<WifiConfig>, a: Seq<u8>) -> bool {
    exists|i: int| 0 <= i < s.len() && addr_of(s[i]) == a
}

/// A freshly scanned candidate with the outcome history of `prior` carried
/// forward: the scanned fields stay (the new signal strength wins), the
/// outcome of a previously known address survives.
pub open spec fn carry_outcome(prior: Seq<WifiConfig>, c: WifiConfig) -> WifiConfig {
    match lookup_outcome(prior, addr_of(c)) {
        Some(o) => with_outcome(c, o),
        None => c,
    }
}

/// The whole fresh scan with outcomes carried forward from `prior`.
pub open spec fn merged(prior: Seq<WifiConfig>, fresh: Seq<WifiConfig>) -> Seq<WifiConfig> {
    Seq::new(fresh.len(), |i: int| carry_outcome(prior, fresh[i]))
}

/// Every entry with address `a` gets outcome `o`; all others stay.
pub open spec fn mark_spec(s: Seq<WifiConfig>, a: Seq<u8>, o: ConnectOutcome) -> Seq<WifiConfig> {
    Seq::new(
        s.len(),
        |i: int|
            if addr_of(s[i]) == a {
                with_outcome(s[i], o)
            } else {
                s[i]
            },
    )
}

/// `lookup_outcome` is decided by the first matching index, so a scan that
/// found no match in a prefix may go on from there.
proof fn lemma_lookup_skip(s: Seq<WifiConfig>, a: Seq<u8>, i: int)
    requires
        0 <= i <= s.len(),
        forall|k: int| 0 <= k < i ==> addr_of(s[k]) != a,
    ensures
        lookup_outcome(s, a) == lookup_outcome(s.skip(i), a),
    decreases i,
{
    if i == 0 {
        assert(s.skip(0) =~= s);
    } else {
        lemma_lookup_skip(s.drop_first(), a, i - 1);
        assert(s.drop_first().skip(i - 1) =~= s.skip(i));
    }
}

/// The outcome stored for address `a` in `prior`, if any entry has it.
fn find_outcome(prior: &Vec<WifiConfig>, addr: &[u8; 6]) -> (r: Option<ConnectOutcome>)
    ensures
        r == lookup_outcome(prior@, addr@),
{
    let mut i: usize = 0;
    while i < prior.len()
        invariant
            i <= prior@.len(),
            forall|k: int| 0 <= k < i ==> addr_of(prior@[k]) != addr@,
        decreases prior@.len() - i,
    {
        if bssid_eq(&prior[i].bssid, addr) {
            proof {
                lemma_lookup_skip(prior@, addr@, i as int);
                assert(prior@.skip(i as int)[0] == prior@[i as int]);
            }
            return Some(prior[i].connect_outcome);
        }
        i += 1;
    }
    proof {
        lemma_lookup_skip(prior@, addr@, prior@.len() as int);
        assert(prior@.skip(prior@.len() as int) =~= Seq::<WifiConfig>::empty());
    }
    None
}

/// Under unique addresses, the stored outcome for an entry's address is that
/// entry's outcome.
pub proof fn lemma_lookup_unique(s: Seq<WifiConfig>, j: int)
    requires
        unique_addrs(s),
        0 <= j < s.len(),
    ensures
        lookup_outcome(s, addr_of(s[j])) == Some(s[j].connect_outcome),
    decreases j,
{
    if j == 0 {
    } else {
        assert(addr_of(s[0]) != addr_of(s[j]));
        let rest = s.drop_first();
        assert(unique_addrs(rest));
        assert(rest[j - 1] == s[j]);
        lemma_lookup_unique(rest, j - 1);
    }
}

/// The lookup fails exactly when no entry has the address.
pub proof fn lemma_lookup_absent(s: Seq<WifiConfig>, a: Seq<u8>)
    ensures
        (lookup_outcome(s, a) is None) <==> !has_addr(s, a),
    decreases s.len(),
{
    if s.len() == 0 {
    } else if addr_of(s[0]) == a {
        assert(has_addr(s, a));
    } else {
        let rest = s.drop_first();
        lemma_lookup_absent(rest, a);
        if has_addr(rest, a) {
            let i = choose|i: int| 0 <= i < rest.len() && addr_of(rest[i]) == a;
            assert(addr_of(s[i + 1]) == a);
        }
        if has_addr(s, a) {
            let i = choose|i: int| 0 <= i < s.len() && addr_of(s[i]) == a;
            assert(addr_of(rest[i - 1]) == a);
        }
    }
}

/// The shared ranked list of candidate access points. It is kept sorted best
/// first after every mutation that a best-pick read depends on, and holds at
/// most one entry per hardware address.
pub struct CandidateStore {
    candidates: Vec<WifiConfig>,
}

impl View for CandidateStore {
    type V = Seq<WifiConfig>;

    closed spec fn view(&self) -> Seq<WifiConfig> {
        self.candidates@
    }
}

impl CandidateStore {
    /// The store's invariant between best-pick reads: ranked best first, one
    /// entry per address, every entry well-formed.
    pub open spec fn wf(&self) -> bool {
        &&& sorted_ranked(self@)
        &&& unique_addrs(self@)
        &&& all_wf(self@)
    }

    /// An empty store.
    pub fn new() -> (s: Self)
        ensures
            s@ == Seq::<WifiConfig>::empty(),
            s.wf(),
    {
        CandidateStore { candidates: Vec::new() }
    }

    pub fn len(&self) -> (n: usize)
        ensures
            n == self@.len(),
    {
        self.candidates.len()
    }

    /// Read access to the ranked list.
    pub fn entries(&self) -> (v: &Vec<WifiConfig>)
        ensures
            v@ == self@,
    {
        &self.candidates
    }

    /// The top-ranked candidate: the first element, or nothing if the store
    /// is empty.
    pub fn best(&self) -> (r: Option<WifiConfig>)
        ensures
            r == (if self@.len() > 0 {
                Some(self@[0])
            } else {
                None::<WifiConfig>
            }),
            self.wf() && self@.len() > 0 ==> forall|i: int|
                0 <= i < self@.len() ==> rank_ge(r->Some_0, self@[i]),
    {
        if self.candidates.len() > 0 {
            Some(self.candidates[0].clone())
        } else {
            None
        }
    }

    /// Swaps the whole set for the fresh scan, carrying the stored outcome of
    /// every address the scan saw again, and re-sorts before anything reads
    /// the new set.
    pub fn replace_all(&mut self, fresh: Vec<WifiConfig>)
        requires
            unique_addrs(fresh@),
            all_wf(fresh@),
        ensures
            final(self)@ == sort_ranked(merged(old(self)@, fresh@)),
            final(self).wf(),
    {
        let ghost fresh0 = fresh@;
        let ghost prior = self.candidates@;
        let mut work = fresh;
        let mut i: usize = 0;
        while i < work.len()
            invariant
                self.candidates@ == prior,
                work@.len() == fresh0.len(),
                i <= work@.len(),
                forall|k: int| 0 <= k < i ==> work@[k] == merged(prior, fresh0)[k],
                forall|k: int| i <= k < work@.len() ==> work@[k] == fresh0[k],
            decreases work@.len() - i,
        {
            let b = work[i].bssid;
            match find_outcome(&self.candidates, &b) {
                Some(o) => {
                    let mut c = work[i].clone();
                    c.connect_outcome = o;
                    work[i] = c;
                },
                None => {},
            }
            i += 1;
        }
        proof {
            assert(work@ =~= merged(prior, fresh0));
            assert forall|p: int, q: int| 0 <= p < q < work@.len() implies addr_of(work@[p])
                != addr_of(work@[q]) by {
                assert(addr_of(work@[p]) == addr_of(fresh0[p]));
                assert(addr_of(work@[q]) == addr_of(fresh0[q]));
            }
            assert forall|p: int| 0 <= p < work@.len() implies (#[trigger] work@[p]).wf() by {
                assert(fresh0[p].wf());
            }
            lemma_sort_ranked_sorted(work@);
            lemma_sort_ranked_unique(work@);
            lemma_sort_ranked_wf(work@);
        }
        sort_candidates(&mut work);
        self.candidates = work;
    }

    /// Updates exactly the entry with the given address, if one is there; a
    /// no-op otherwise. Does not itself re-sort: callers re-sort before the
    /// next best-pick read that depends on the new outcome.
    pub fn mark_outcome(&mut self, addr: &[u8; 6], outcome: ConnectOutcome) -> (found: bool)
        ensures
            final(self)@ == mark_spec(old(self)@, addr@, outcome),
            found == has_addr(old(self)@, addr@),
            unique_addrs(old(self)@) ==> unique_addrs(final(self)@),
            all_wf(old(self)@) ==> all_wf(final(self)@),
    {
        let ghost prior = self.candidates@;
        let mut found = false;
        let mut i: usize = 0;
        while i < self.candidates.len()
            invariant
                self.candidates@.len() == prior.len(),
                i <= prior.len(),
                forall|k: int| 0 <= k < i ==> self.candidates@[k] == mark_spec(
                    prior,
                    addr@,
                    outcome,
                )[k],
                forall|k: int| i <= k < prior.len() ==> self.candidates@[k] == prior[k],
                found ==> has_addr(prior, addr@),
                !found ==> forall|k: int| 0 <= k < i ==> addr_of(prior[k]) != addr@,
            decreases prior.len() - i,
        {
            if bssid_eq(&self.candidates[i].bssid, addr) {
                proof {
                    assert(self.candidates@[i as int] == prior[i as int]);
                    assert(addr_of(prior[i as int]) == addr@);
                }
                let mut c = self.candidates[i].clone();
                c.connect_outcome = outcome;
                self.candidates[i] = c;
                found = true;
            }
            i += 1;
        }
        proof {
            assert(self.candidates@ =~= mark_spec(prior, addr@, outcome));
            let m = mark_spec(prior, addr@, outcome);
            if unique_addrs(prior) {
                assert forall|p: int, q: int| 0 <= p < q < m.len() implies addr_of(m[p])
                    != addr_of(m[q]) by {
                    assert(addr_of(m[p]) == addr_of(prior[p]));
                    assert(addr_of(m[q]) == addr_of(prior[q]));
                }
            }
            if all_wf(prior) {
                assert forall|p: int| 0 <= p < m.len() implies (#[trigger] m[p]).wf() by {
                    assert(prior[p].wf());
                }
            }
        }
        found
    }

    /// Re-sorts the list, typically right after an outcome update.
    pub fn resort(&mut self)
        ensures
            final(self)@ == sort_ranked(old(self)@),
            sorted_ranked(final(self)@),
            unique_addrs(old(self)@) ==> unique_addrs(final(self)@),
            all_wf(old(self)@) ==> all_wf(final(self)@),
            unique_addrs(old(self)@) && all_wf(old(self)@) ==> final(self).wf(),
    {
        proof {
            lemma_sort_ranked_sorted(self.candidates@);
            if unique_addrs(self.candidates@) {
                lemma_sort_ranked_unique(self.candidates@);
            }
            if all_wf(self.candidates@) {
                lemma_sort_ranked_wf(self.candidates@);
            }
        }
        sort_candidates(&mut self.candidates);
    }

    /// LAW. A wholesale replacement leaves the store fully sorted, and what
    /// `best()` then returns — the first entry — is an element of the merged
    /// input set that outranks (or ties) every element of it.
    pub proof fn law_replace_all_then_best(prior: Seq<WifiConfig>, fresh: Seq<WifiConfig>)
        ensures
            sorted_ranked(sort_ranked(merged(prior, fresh))),
            sort_ranked(merged(prior, fresh)).len() == fresh.len(),
            fresh.len() > 0 ==> merged(prior, fresh).contains(
                sort_ranked(merged(prior, fresh))[0],
            ),
            fresh.len() > 0 ==> forall|x: WifiConfig|
                merged(prior, fresh).contains(x) ==> rank_ge(
                    sort_ranked(merged(prior, fresh))[0],
                    x,
                ),
    {
        let m = merged(prior, fresh);
        let s = sort_ranked(m);
        lemma_sort_ranked_sorted(m);
        lemma_sort_ranked_len(m);
        lemma_sort_ranked_contains(m);
        if fresh.len() > 0 {
            assert(s.contains(s[0]));
            lemma_sorted_first_is_best(s);
            assert forall|x: WifiConfig| m.contains(x) implies rank_ge(
                s[0],
                x,
            ) by {
                assert(s.contains(x));
                let j = choose|j: int| 0 <= j < s.len() && s[j] == x;
                assert(rank_ge(s[0], s[j]));
            }
        }
    }

    /// LAW. Outcome carry-forward: when a fresh scan sees an address the
    /// store already holds, the merged entry keeps every scanned field — the
    /// new signal strength included — and takes the outcome stored for that
    /// address.
    pub proof fn law_carry_forward(
        prior: Seq<WifiConfig>,
        fresh: Seq<WifiConfig>,
        i: int,
        j: int,
    )
        requires
            unique_addrs(prior),
            0 <= i < fresh.len(),
            0 <= j < prior.len(),
            addr_of(fresh[i]) == addr_of(prior[j]),
        ensures
            merged(prior, fresh)[i].connect_outcome == prior[j].connect_outcome,
            merged(prior, fresh)[i].signal_strength == fresh[i].signal_strength,
            merged(prior, fresh)[i].ssid == fresh[i].ssid,
            addr_of(merged(prior, fresh)[i]) == addr_of(fresh[i]),
    {
        lemma_lookup_unique(prior, j);
    }

    /// LAW. An address the store has never seen gets no history: the merged
    /// entry is the scanned one, never-attempted outcome and all.
    pub proof fn law_carry_forward_fresh(prior: Seq<WifiConfig>, fresh: Seq<WifiConfig>, i: int)
        requires
            0 <= i < fresh.len(),
            !has_addr(prior, addr_of(fresh[i])),
        ensures
            merged(prior, fresh)[i] == fresh[i],
    {
        lemma_lookup_absent(prior, addr_of(fresh[i]));
    }

    /// LAW. Idempotence: replacing with the same input set a second time
    /// reproduces the same sorted store, outcome for outcome.
    pub proof fn law_replace_all_idempotent(prior: Seq<WifiConfig>, fresh: Seq<WifiConfig>)
        requires
            unique_addrs(fresh),
        ensures
            sort_ranked(merged(sort_ranked(merged(prior, fresh)), fresh)) == sort_ranked(
                merged(prior, fresh),
            ),
    {
        let m1 = merged(prior, fresh);
        let s1 = sort_ranked(m1);
        let m2 = merged(s1, fresh);
        assert forall|p: int, q: int| 0 <= p < q < m1.len() implies addr_of(m1[p]) != addr_of(
            m1[q],
        ) by {
            assert(addr_of(m1[p]) == addr_of(fresh[p]));
            assert(addr_of(m1[q]) == addr_of(fresh[q]));
        }
        lemma_sort_ranked_unique(m1);
        lemma_sort_ranked_contains(m1);
        lemma_sort_ranked_len(m1);
        assert forall|i: int| 0 <= i < fresh.len() implies m2[i] == m1[i] by {
            let a = addr_of(fresh[i]);
            assert(m1.contains(m1[i]));
            assert(s1.contains(m1[i]));
            let j = choose|j: int| 0 <= j < s1.len() && s1[j] == m1[i];
            assert(addr_of(s1[j]) == a);
            lemma_lookup_unique(s1, j);
            assert(lookup_outcome(s1, a) == Some(m1[i].connect_outcome));
            assert(m2[i] == with_outcome(fresh[i], m1[i].connect_outcome));
            if lookup_outcome(prior, a) is Some {
                assert(m1[i] == with_outcome(fresh[i], lookup_outcome(prior, a)->Some_0));
            } else {
                assert(m1[i] == fresh[i]);
                assert(with_outcome(fresh[i], fresh[i].connect_outcome) == fresh[i]);
            }
        }
        assert(m2 =~= m1);
    }
}

} // verus!
