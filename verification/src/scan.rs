//! Scan merge: turning one raw scan pass into the ranked candidate set. Only
//! allow-listed names are kept, one entry per hardware address (the last
//! observation of an address wins), and every entry starts never-attempted —
//! a scan never fabricates outcome history.

use vstd::prelude::*;

use crate::candidate::{addr_of, all_wf, ssid_len_ok, unique_addrs, ConnectOutcome, WifiConfig};
use crate::candidate::bssid_eq;
use crate::credentials::{allowed, creds_wf, find_credential, Credential};
use crate::sorting::{
    lemma_sort_ranked_contains, lemma_sort_ranked_len, lemma_sort_ranked_sorted,
    lemma_sort_ranked_unique, lemma_sort_ranked_wf, sort_candidates, sort_ranked, sorted_ranked,
};

verus! {

/// How many access points one scan pass asks the radio for at most.
pub const SCAN_COUNT: usize = 10;

/// One access point as a scan pass reports it: identity, name and signal
/// strength, with no history attached.
#[derive(Debug)]
pub struct ScanObservation {
    pub bssid: [u8; 6],
    pub ssid: String,
    pub signal_strength: i8,
}

/// The candidate a fresh observation becomes: never attempted so far.
pub open spec fn to_candidate(o: ScanObservation) -> WifiConfig {
    WifiConfig {
        bssid: o.bssid,
        ssid: o.ssid,
        signal_strength: o.signal_strength,
        connect_outcome: ConnectOutcome::NeverAttempted,
    }
}

/// The entries of `s` whose address is not `a`, in order.
pub open spec fn remove_addr(s: Seq<WifiConfig>, a: Seq<u8>) -> Seq<WifiConfig>
    decreases s.len(),
{
    if s.len() == 0 {
        Seq::empty()
    } else if addr_of(s[0]) == a {
        remove_addr(s.drop_first(), a)
    } else {
        seq![s[0]] + remove_addr(s.drop_first(), a)
    }
}

/// The candidate set one scan pass yields: allow-listed names only, the last
/// observation of an address superseding earlier ones, every entry fresh.
pub open spec fn build_candidates(obs: Seq<ScanObservation>, creds: Seq<Credential>) -> Seq<
    WifiConfig,
>
    decreases obs.len(),
{
    if obs.len() == 0 {
        Seq::empty()
    } else {
        let rest = build_candidates(obs.drop_last(), creds);
        let o = obs.last();
        if allowed(o.ssid@, creds) {
            remove_addr(rest, o.bssid@) + seq![to_candidate(o)]
        } else {
            rest
        }
    }
}

/// Every entry of the list carries an allow-listed name.
pub open spec fn all_allowed(s: Seq<WifiConfig>, creds: Seq<Credential>) -> bool {
    forall|i: int| 0 <= i < s.len() ==> allowed((#[trigger] s[i]).ssid@, creds)
}

/// Every entry of the list is never-attempted: no fabricated history.
pub open spec fn all_fresh(s: Seq<WifiConfig>) -> bool {
    forall|i: int|
        0 <= i < s.len() ==> (#[trigger] s[i]).connect_outcome == ConnectOutcome::NeverAttempted
}

/// What removal by address leaves: no entry with that address, a subset of
/// the old entries, uniqueness and well-formedness intact.
pub proof fn lemma_remove_addr_props(s: Seq<WifiConfig>, a: Seq<u8>)
    ensures
        forall|k: int|
            0 <= k < remove_addr(s, a).len() ==> addr_of(#[trigger] remove_addr(s, a)[k]) != a,
        forall|x: WifiConfig| #[trigger] remove_addr(s, a).contains(x) ==> s.contains(x),
        unique_addrs(s) ==> unique_addrs(remove_addr(s, a)),
    decreases s.len(),
{
    if s.len() == 0 {
    } else {
        let rest = s.drop_first();
        lemma_remove_addr_props(rest, a);
        assert forall|x: WifiConfig| rest.contains(x) implies s.contains(x) by {
            let i = choose|i: int| 0 <= i < rest.len() && rest[i] == x;
            assert(s[i + 1] == x);
        }
        if addr_of(s[0]) == a {
            let r = remove_addr(s, a);
            let rr = remove_addr(rest, a);
            assert(r == rr);
            assert forall|k: int| 0 <= k < r.len() implies addr_of(#[trigger] r[k]) != a by {
                assert(r[k] == rr[k]);
            }
            assert forall|x: WifiConfig| #[trigger] r.contains(x) implies s.contains(x) by {
                assert(rr.contains(x));
            }
        } else {
            let r = remove_addr(s, a);
            let rr = remove_addr(rest, a);
            assert(r == seq![s[0]] + rr);
            assert forall|k: int| 0 <= k < r.len() implies addr_of(#[trigger] r[k]) != a by {
                if k > 0 {
                    assert(r[k] == rr[k - 1]);
                }
            }
            assert forall|x: WifiConfig| r.contains(x) implies s.contains(x) by {
                let i = choose|i: int| 0 <= i < r.len() && r[i] == x;
                if i == 0 {
                    assert(s[0] == x);
                } else {
                    assert(rr[i - 1] == x);
                    assert(rr.contains(x));
                }
            }
            if unique_addrs(s) {
                assert(unique_addrs(rest));
                assert forall|p: int, q: int| 0 <= p < q < r.len() implies addr_of(r[p])
                    != addr_of(r[q]) by {
                    if p == 0 {
                        assert(r[q] == rr[q - 1]);
                        assert(rr.contains(rr[q - 1]));
                        assert(rest.contains(rr[q - 1]));
                        let k = choose|k: int| 0 <= k < rest.len() && rest[k] == rr[q - 1];
                        assert(s[k + 1] == rest[k]);
                        assert(addr_of(s[0]) != addr_of(s[k + 1]));
                    } else {
                        assert(r[p] == rr[p - 1] && r[q] == rr[q - 1]);
                    }
                }
            }
        }
    }
}

/// Removing an address that no entry has changes nothing.
proof fn lemma_remove_addr_absent(s: Seq<WifiConfig>, a: Seq<u8>)
    requires
        forall|k: int| 0 <= k < s.len() ==> addr_of(s[k]) != a,
    ensures
        remove_addr(s, a) == s,
    decreases s.len(),
{
    if s.len() > 0 {
        let rest = s.drop_first();
        lemma_remove_addr_absent(rest, a);
        assert(remove_addr(s, a) =~= s);
    }
}

/// When exactly one entry has the address, removal is removal at its index.
proof fn lemma_remove_addr_single(s: Seq<WifiConfig>, a: Seq<u8>, i: int)
    requires
        0 <= i < s.len(),
        addr_of(s[i]) == a,
        forall|k: int| 0 <= k < s.len() && k != i ==> addr_of(s[k]) != a,
    ensures
        remove_addr(s, a) == s.remove(i),
    decreases i,
{
    let rest = s.drop_first();
    if i == 0 {
        assert(forall|k: int| 0 <= k < rest.len() ==> addr_of(rest[k]) != a);
        lemma_remove_addr_absent(rest, a);
        assert(remove_addr(s, a) =~= s.remove(0));
    } else {
        assert(addr_of(s[0]) != a);
        assert(rest[i - 1] == s[i]);
        lemma_remove_addr_single(rest, a, i - 1);
        assert(seq![s[0]] + rest.remove(i - 1) =~= s.remove(i));
    }
}

/// Removes the entry with the given address, if one is there.
fn remove_candidate(v: &mut Vec<WifiConfig>, addr: &[u8; 6])
    requires
        unique_addrs(old(v)@),
    ensures
        final(v)@ == remove_addr(old(v)@, addr@),
{
    let mut i: usize = 0;
    while i < v.len()
        invariant
            v@ == old(v)@,
            unique_addrs(v@),
            i <= v@.len(),
            forall|k: int| 0 <= k < i ==> addr_of(v@[k]) != addr@,
        decreases v@.len() - i,
    {
        if bssid_eq(&v[i].bssid, addr) {
            proof {
                assert(unique_addrs(v@));
                assert forall|k: int|
                    0 <= k < v@.len() && k != i implies addr_of(v@[k]) != addr@ by {
                    if k > i {
                        assert(0 <= i as int && (i as int) < k && k < v@.len());
                        assert(addr_of(v@[i as int]) != addr_of(v@[k]));
                    }
                }
                lemma_remove_addr_single(v@, addr@, i as int);
            }
            v.remove(i);
            return ;
        }
        i += 1;
    }
    proof {
        lemma_remove_addr_absent(v@, addr@);
    }
}

/// What one scan pass builds: addresses unique, names all allow-listed, no
/// outcome history fabricated, entries well-formed when the allow-list is.
pub proof fn lemma_build_candidates_props(obs: Seq<ScanObservation>, creds: Seq<Credential>)
    ensures
        unique_addrs(build_candidates(obs, creds)),
        all_allowed(build_candidates(obs, creds), creds),
        all_fresh(build_candidates(obs, creds)),
        creds_wf(creds) ==> all_wf(build_candidates(obs, creds)),
    decreases obs.len(),
{
    if obs.len() > 0 {
        let rest = build_candidates(obs.drop_last(), creds);
        let o = obs.last();
        lemma_build_candidates_props(obs.drop_last(), creds);
        if allowed(o.ssid@, creds) {
            let removed = remove_addr(rest, o.bssid@);
            lemma_remove_addr_props(rest, o.bssid@);
            let b = build_candidates(obs, creds);
            assert(b == removed + seq![to_candidate(o)]);
            assert forall|p: int, q: int| 0 <= p < q < b.len() implies addr_of(b[p]) != addr_of(
                b[q],
            ) by {
                if q == b.len() - 1 {
                    assert(b[p] == removed[p]);
                    assert(addr_of(removed[p]) != o.bssid@);
                    assert(addr_of(b[q]) == o.bssid@);
                } else {
                    assert(b[p] == removed[p] && b[q] == removed[q]);
                }
            }
            assert forall|p: int| 0 <= p < b.len() implies allowed(
                (#[trigger] b[p]).ssid@,
                creds,
            ) by {
                if p == b.len() - 1 {
                    assert(b[p] == to_candidate(o));
                } else {
                    assert(b[p] == removed[p]);
                    assert(removed.contains(removed[p]));
                    assert(rest.contains(removed[p]));
                    let k = choose|k: int| 0 <= k < rest.len() && rest[k] == removed[p];
                    assert(allowed(rest[k].ssid@, creds));
                }
            }
            assert forall|p: int|
                0 <= p < b.len() implies (#[trigger] b[p]).connect_outcome
                == ConnectOutcome::NeverAttempted by {
                if p == b.len() - 1 {
                    assert(b[p] == to_candidate(o));
                } else {
                    assert(b[p] == removed[p]);
                    assert(removed.contains(removed[p]));
                    assert(rest.contains(removed[p]));
                    let k = choose|k: int| 0 <= k < rest.len() && rest[k] == removed[p];
                    assert(rest[k].connect_outcome == ConnectOutcome::NeverAttempted);
                }
            }
            if creds_wf(creds) {
                assert forall|p: int| 0 <= p < b.len() implies (#[trigger] b[p]).wf() by {
                    if p == b.len() - 1 {
                        assert(allowed(o.ssid@, creds));
                        let k = choose|k: int| 0 <= k < creds.len() && creds[k].ssid@ == o.ssid@;
                        assert(ssid_len_ok(creds[k].ssid@));
                    } else {
                        assert(b[p] == removed[p]);
                        assert(removed.contains(removed[p]));
                        assert(rest.contains(removed[p]));
                        let k = choose|k: int| 0 <= k < rest.len() && rest[k] == removed[p];
                        assert(rest[k].wf());
                    }
                }
            }
        }
    }
}

/// Credential resolution fails closed, and the engine never needs the open
/// path: every candidate set a scan pass yields carries allow-listed names
/// only, and a wholesale store replacement keeps that — so looking up the
/// credentials of any entry of such a store succeeds.
pub proof fn lemma_merge_stays_allowed(
    prior: Seq<WifiConfig>,
    fresh: Seq<WifiConfig>,
    creds: Seq<Credential>,
)
    requires
        all_allowed(fresh, creds),
    ensures
        all_allowed(crate::store::merged(prior, fresh), creds),
        all_allowed(sort_ranked(crate::store::merged(prior, fresh)), creds),
{
    let m = crate::store::merged(prior, fresh);
    assert forall|i: int| 0 <= i < m.len() implies allowed((#[trigger] m[i]).ssid@, creds) by {
        assert(m[i].ssid == fresh[i].ssid);
        assert(allowed(fresh[i].ssid@, creds));
    }
    lemma_sort_ranked_contains(m);
    lemma_sort_ranked_len(m);
    let s = sort_ranked(m);
    assert forall|i: int| 0 <= i < s.len() implies allowed((#[trigger] s[i]).ssid@, creds) by {
        assert(s.contains(s[i]));
        assert(m.contains(s[i]));
        let k = choose|k: int| 0 <= k < m.len() && m[k] == s[i];
        assert(allowed(m[k].ssid@, creds));
    }
}

/// Performs the pure half of a scan pass: filters the raw observations to
/// allow-listed names, keeps one candidate per address (the last observation
/// wins), marks each never-attempted, and ranks the result best first.
pub fn scan_and_score_wgs(observed: Vec<ScanObservation>, creds: &Vec<Credential>) -> (r: Vec<
    WifiConfig,
>)
    requires
        creds_wf(creds@),
    ensures
        r@ == sort_ranked(build_candidates(observed@, creds@)),
        sorted_ranked(r@),
        unique_addrs(r@),
        all_wf(r@),
        all_allowed(r@, creds@),
        all_fresh(r@),
{
    let mut acc: Vec<WifiConfig> = Vec::new();
    let mut i: usize = 0;
    proof {
        assert(observed@.subrange(0, 0) =~= Seq::<ScanObservation>::empty());
    }
    while i < observed.len()
        invariant
            i <= observed@.len(),
            creds_wf(creds@),
            acc@ == build_candidates(observed@.subrange(0, i as int), creds@),
        decreases observed@.len() - i,
    {
        let ghost prefix = observed@.subrange(0, i as int);
        proof {
            lemma_build_candidates_props(prefix, creds@);
            assert(observed@.subrange(0, i + 1 as int).drop_last() =~= prefix);
            assert(observed@.subrange(0, i + 1 as int).last() == observed@[i as int]);
        }
        if find_credential(&observed[i].ssid, creds).is_some() {
            let b = observed[i].bssid;
            remove_candidate(&mut acc, &b);
            let cand = WifiConfig {
                bssid: observed[i].bssid,
                ssid: observed[i].ssid.clone(),
                signal_strength: observed[i].signal_strength,
                connect_outcome: ConnectOutcome::NeverAttempted,
            };
            proof {
                assert(cand == to_candidate(observed@[i as int]));
            }
            acc.push(cand);
            proof {
                assert(acc@ =~= remove_addr(build_candidates(prefix, creds@), observed@[i as int].bssid@)
                    + seq![to_candidate(observed@[i as int])]);
            }
        }
        i += 1;
    }
    proof {
        assert(observed@.subrange(0, observed@.len() as int) =~= observed@);
        lemma_build_candidates_props(observed@, creds@);
        lemma_sort_ranked_sorted(acc@);
        lemma_sort_ranked_unique(acc@);
        lemma_sort_ranked_wf(acc@);
        lemma_sort_ranked_contains(acc@);
        lemma_sort_ranked_len(acc@);
    }
    let ghost built = acc@;
    sort_candidates(&mut acc);
    proof {
        assert forall|p: int| 0 <= p < acc@.len() implies allowed(
            (#[trigger] acc@[p]).ssid@,
            creds@,
        ) by {
            assert(acc@.contains(acc@[p]));
            assert(built.contains(acc@[p]));
            let k = choose|k: int| 0 <= k < built.len() && built[k] == acc@[p];
            assert(allowed(built[k].ssid@, creds@));
        }
        assert forall|p: int|
            0 <= p < acc@.len() implies (#[trigger] acc@[p]).connect_outcome
            == ConnectOutcome::NeverAttempted by {
            assert(acc@.contains(acc@[p]));
            assert(built.contains(acc@[p]));
            let k = choose|k: int| 0 <= k < built.len() && built[k] == acc@[p];
            assert(built[k].connect_outcome == ConnectOutcome::NeverAttempted);
        }
    }
    acc
}

/// Folds one raw scan pass into the store: builds the fresh ranked candidate
/// set and swaps it in, outcome history carried forward by address.
pub fn merge_scan(
    store: &mut crate::store::CandidateStore,
    observed: Vec<ScanObservation>,
    creds: &Vec<Credential>,
)
    requires
        creds_wf(creds@),
    ensures
        final(store)@ == sort_ranked(
            crate::store::merged(
                old(store)@,
                sort_ranked(build_candidates(observed@, creds@)),
            ),
        ),
        final(store).wf(),
{
    let fresh = scan_and_score_wgs(observed, creds);
    store.replace_all(fresh);
}

} // verus!
