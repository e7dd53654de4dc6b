//! The candidate record and the ranking policy: a total order over candidates
//! in which outcome class (`Succeeded` > `NeverAttempted` > `Failed`) decides
//! first and signal strength decides only within a class.

use vstd::prelude::*;

verus! {

/// Largest network name the engine accepts, in bytes.
pub const MAX_SSID_BYTES: usize = 32;

/// What the most recent connection attempt to an access point did:
/// `NeverAttempted` until the first attempt, then `Succeeded` or `Failed`.
#[derive(Clone, Copy, PartialEq, Eq, Structural, Debug)]
pub enum ConnectOutcome {
    NeverAttempted,
    Succeeded,
    Failed,
}

/// One candidate access point. Identity is the 6-byte hardware address
/// (`bssid`) alone: distinct radios may advertise the same network name.
#[derive(Debug)]
pub struct WifiConfig {
    pub bssid: [u8; 6],
    pub ssid: String,
    pub signal_strength: i8,
    pub connect_outcome: ConnectOutcome,
}

/// A network name fits the bound the data model puts on it.
pub open spec fn ssid_len_ok(s: Seq<char>) -> bool {
    vstd::utf8::encode_utf8(s).len() <= MAX_SSID_BYTES
}

impl WifiConfig {
    /// Well-formedness: the network name is within its byte bound.
    pub open spec fn wf(&self) -> bool {
        ssid_len_ok(self.ssid@)
    }
}

/// Primary ranking key: the outcome class, best first.
pub open spec fn class_of(c: WifiConfig) -> int {
    match c.connect_outcome {
        ConnectOutcome::Succeeded => 2int,
        ConnectOutcome::NeverAttempted => 1int,
        ConnectOutcome::Failed => 0int,
    }
}

/// The ranking policy as a mathematical total order: outcome class decides
/// first; within a class, larger signal strength wins.
pub open spec fn spec_cmp(a: WifiConfig, b: WifiConfig) -> core::cmp::Ordering {
    if class_of(a) < class_of(b) {
        core::cmp::Ordering::Less
    } else if class_of(a) > class_of(b) {
        core::cmp::Ordering::Greater
    } else if a.signal_strength < b.signal_strength {
        core::cmp::Ordering::Less
    } else if a.signal_strength > b.signal_strength {
        core::cmp::Ordering::Greater
    } else {
        core::cmp::Ordering::Equal
    }
}

/// `a` ranks at least as high as `b`.
pub open spec fn rank_ge(a: WifiConfig, b: WifiConfig) -> bool {
    spec_cmp(a, b) != core::cmp::Ordering::Less
}

/// Two candidates are the same entity: equal hardware address.
pub open spec fn same_addr(a: WifiConfig, b: WifiConfig) -> bool {
    a.bssid@ == b.bssid@
}

/// The hardware address of a candidate, as the identity key.
pub open spec fn addr_of(c: WifiConfig) -> Seq<u8> {
    c.bssid@
}

/// No two entries of the list share a hardware address.
pub open spec fn unique_addrs(s: Seq<WifiConfig>) -> bool {
    forall|i: int, j: int| 0 <= i < j < s.len() ==> addr_of(s[i]) != addr_of(s[j])
}

/// Every candidate of the list is well-formed.
pub open spec fn all_wf(s: Seq<WifiConfig>) -> bool {
    forall|i: int| 0 <= i < s.len() ==> (#[trigger] s[i]).wf()
}

/// Equality of two hardware addresses.
pub fn bssid_eq(a: &[u8; 6], b: &[u8; 6]) -> (r: bool)
    ensures
        r == (a@ == b@),
{
    let r = a[0] == b[0] && a[1] == b[1] && a[2] == b[2] && a[3] == b[3] && a[4] == b[4] && a[5]
        == b[5];
    proof {
        if r {
            assert(a@ =~= b@);
        }
    }
    r
}

impl WifiConfig {
    /// Compares by signal strength alone; used within one outcome class.
    pub fn cmp_ss(&self, other: &Self) -> (r: core::cmp::Ordering)
        ensures
            r == (if self.signal_strength < other.signal_strength {
                core::cmp::Ordering::Less
            } else if self.signal_strength > other.signal_strength {
                core::cmp::Ordering::Greater
            } else {
                core::cmp::Ordering::Equal
            }),
    {
        if self.signal_strength < other.signal_strength {
            core::cmp::Ordering::Less
        } else if self.signal_strength > other.signal_strength {
            core::cmp::Ordering::Greater
        } else {
            core::cmp::Ordering::Equal
        }
    }

    /// The ranking policy, written out as the explicit table over outcome
    /// classes: a candidate known to work beats an unknown one, which beats
    /// one known to have failed, whatever the signal strengths.
    pub fn cmp(&self, other: &Self) -> (r: core::cmp::Ordering)
        ensures
            r == spec_cmp(*self, *other),
    {
        match (self.connect_outcome, other.connect_outcome) {
            (ConnectOutcome::Succeeded, ConnectOutcome::Succeeded) => self.cmp_ss(other),
            (ConnectOutcome::Succeeded, ConnectOutcome::NeverAttempted) => core::cmp::Ordering::Greater,
            (ConnectOutcome::Succeeded, ConnectOutcome::Failed) => core::cmp::Ordering::Greater,
            (ConnectOutcome::NeverAttempted, ConnectOutcome::Succeeded) => core::cmp::Ordering::Less,
            (ConnectOutcome::NeverAttempted, ConnectOutcome::NeverAttempted) => self.cmp_ss(other),
            (ConnectOutcome::NeverAttempted, ConnectOutcome::Failed) => core::cmp::Ordering::Greater,
            (ConnectOutcome::Failed, ConnectOutcome::Succeeded) => core::cmp::Ordering::Less,
            (ConnectOutcome::Failed, ConnectOutcome::NeverAttempted) => core::cmp::Ordering::Less,
            (ConnectOutcome::Failed, ConnectOutcome::Failed) => self.cmp_ss(other),
        }
    }

    /// Equality of hardware addresses: `other` is the same entity as `self`.
    pub fn same_entity(&self, other: &Self) -> (r: bool)
        ensures
            r == same_addr(*self, *other),
    {
        bssid_eq(&self.bssid, &other.bssid)
    }
}

impl Clone for WifiConfig {
    fn clone(&self) -> (r: Self)
        ensures
            r == *self,
    {
        WifiConfig {
            bssid: self.bssid,
            ssid: self.ssid.clone(),
            signal_strength: self.signal_strength,
            connect_outcome: self.connect_outcome,
        }
    }
}

impl PartialEq for WifiConfig {
    /// Identity equality: by hardware address alone.
    fn eq(&self, other: &Self) -> (r: bool) {
        bssid_eq(&self.bssid, &other.bssid)
    }
}

impl vstd::std_specs::cmp::PartialEqSpecImpl for WifiConfig {
    open spec fn obeys_eq_spec() -> bool {
        true
    }

    open spec fn eq_spec(&self, other: &Self) -> bool {
        same_addr(*self, *other)
    }
}

/// A candidate whose last attempt succeeded outranks one whose last attempt
/// failed, whatever the signal strengths.
pub proof fn lemma_succeeded_beats_failed(a: WifiConfig, b: WifiConfig)
    requires
        a.connect_outcome == ConnectOutcome::Succeeded,
        b.connect_outcome == ConnectOutcome::Failed,
    ensures
        spec_cmp(a, b) == core::cmp::Ordering::Greater,
{
}

/// Within one outcome class the order is exactly descending signal strength.
pub proof fn lemma_same_class_by_signal(a: WifiConfig, b: WifiConfig)
    requires
        class_of(a) == class_of(b),
    ensures
        (spec_cmp(a, b) == core::cmp::Ordering::Greater) == (a.signal_strength
            > b.signal_strength),
        (spec_cmp(a, b) == core::cmp::Ordering::Less) == (a.signal_strength < b.signal_strength),
        (spec_cmp(a, b) == core::cmp::Ordering::Equal) == (a.signal_strength
            == b.signal_strength),
{
}

/// The ranking is total: every pair compares, and one way only.
pub proof fn lemma_cmp_total(a: WifiConfig, b: WifiConfig)
    ensures
        rank_ge(a, b) || rank_ge(b, a),
        spec_cmp(a, b) == core::cmp::Ordering::Equal ==> rank_ge(a, b) && rank_ge(b, a),
{
}

/// The ranking is antisymmetric: swapping the arguments mirrors the result.
pub proof fn lemma_cmp_antisymmetric(a: WifiConfig, b: WifiConfig)
    ensures
        (spec_cmp(a, b) == core::cmp::Ordering::Greater) == (spec_cmp(b, a)
            == core::cmp::Ordering::Less),
        (spec_cmp(a, b) == core::cmp::Ordering::Equal) == (spec_cmp(b, a)
            == core::cmp::Ordering::Equal),
{
}

/// The ranking is transitive, both in its strict and in its non-strict form.
pub proof fn lemma_cmp_transitive(a: WifiConfig, b: WifiConfig, c: WifiConfig)
    ensures
        rank_ge(a, b) && rank_ge(b, c) ==> rank_ge(a, c),
        spec_cmp(a, b) == core::cmp::Ordering::Greater && spec_cmp(b, c)
            == core::cmp::Ordering::Greater ==> spec_cmp(a, c) == core::cmp::Ordering::Greater,
{
}

} // verus!
