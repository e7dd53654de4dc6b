//! The fixed allow-list of known networks and credential resolution: a pure
//! lookup by network name that fails closed on an unknown name.

use vstd::prelude::*;

use crate::candidate::ssid_len_ok;

verus! {

/// Credentials for one known network name, baked into the firmware.
#[derive(Clone, Copy, Debug)]
pub struct Credential {
    pub ssid: &'static str,
    pub password: &'static str,
}

/// `ssid` is one of the allow-listed network names.
pub open spec fn allowed(ssid: Seq<char>, creds: Seq<Credential>) -> bool {
    exists|i: int| 0 <= i < creds.len() && creds[i].ssid@ == ssid
}

/// Every allow-listed name fits the bound the data model puts on names.
pub open spec fn creds_wf(creds: Seq<Credential>) -> bool {
    forall|i: int| 0 <= i < creds.len() ==> ssid_len_ok(#[trigger] creds[i].ssid@)
}

/// The credential for `ssid`: the first allow-list entry with that name, or
/// nothing if the name is unknown.
pub open spec fn lookup_credential(creds: Seq<Credential>, ssid: Seq<char>) -> Option<Credential>
    decreases creds.len(),
{
    if creds.len() == 0 {
        None
    } else if creds[0].ssid@ == ssid {
        Some(creds[0])
    } else {
        lookup_credential(creds.drop_first(), ssid)
    }
}

/// The lookup succeeds exactly on allow-listed names, and returns a
/// credential carrying that very name.
pub proof fn lemma_lookup_credential_allowed(creds: Seq<Credential>, ssid: Seq<char>)
    ensures
        lookup_credential(creds, ssid) is Some <==> allowed(ssid, creds),
        lookup_credential(creds, ssid) is Some ==> lookup_credential(
            creds,
            ssid,
        )->Some_0.ssid@ == ssid,
    decreases creds.len(),
{
    if creds.len() == 0 {
    } else if creds[0].ssid@ == ssid {
        assert(allowed(ssid, creds));
    } else {
        let rest = creds.drop_first();
        lemma_lookup_credential_allowed(rest, ssid);
        if allowed(ssid, rest) {
            let i = choose|i: int| 0 <= i < rest.len() && rest[i].ssid@ == ssid;
            assert(creds[i + 1].ssid@ == ssid);
        }
        if allowed(ssid, creds) {
            let i = choose|i: int| 0 <= i < creds.len() && creds[i].ssid@ == ssid;
            assert(rest[i - 1].ssid@ == ssid);
        }
    }
}

/// The lookup is decided by the first matching index, so a scan that found no
/// match in a prefix may go on from there.
proof fn lemma_lookup_credential_skip(creds: Seq<Credential>, ssid: Seq<char>, i: int)
    requires
        0 <= i <= creds.len(),
        forall|k: int| 0 <= k < i ==> creds[k].ssid@ != ssid,
    ensures
        lookup_credential(creds, ssid) == lookup_credential(creds.skip(i), ssid),
    decreases i,
{
    if i == 0 {
        assert(creds.skip(0) =~= creds);
    } else {
        lemma_lookup_credential_skip(creds.drop_first(), ssid, i - 1);
        assert(creds.drop_first().skip(i - 1) =~= creds.skip(i));
    }
}

/// Resolves the credentials for a network name. Resolution is a pure lookup:
/// it returns the first allow-list entry with that name and fails closed
/// (`None`) on a name outside the allow-list.
pub fn find_credential(ssid: &String, creds: &Vec<Credential>) -> (r: Option<Credential>)
    ensures
        r == lookup_credential(creds@, ssid@),
        r is Some <==> allowed(ssid@, creds@),
{
    proof {
        lemma_lookup_credential_allowed(creds@, ssid@);
    }
    let mut i: usize = 0;
    while i < creds.len()
        invariant
            i <= creds@.len(),
            forall|k: int| 0 <= k < i ==> creds@[k].ssid@ != ssid@,
        decreases creds@.len() - i,
    {
        let name: String = creds[i].ssid.to_owned();
        if name == *ssid {
            proof {
                lemma_lookup_credential_skip(creds@, ssid@, i as int);
                assert(creds@.skip(i as int)[0] == creds@[i as int]);
            }
            return Some(creds[i]);
        }
        i += 1;
    }
    proof {
        lemma_lookup_credential_skip(creds@, ssid@, creds@.len() as int);
        assert(creds@.skip(creds@.len() as int) =~= Seq::<Credential>::empty());
    }
    None
}

} // verus!
