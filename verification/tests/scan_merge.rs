//! Tests for the scan-merge path: allow-list filtering, per-address
//! deduplication, ranking of the result, and credential resolution.

use wifi_scan_demo::candidate::ConnectOutcome;
use wifi_scan_demo::credentials::{find_credential, Credential};
use wifi_scan_demo::scan::{merge_scan, scan_and_score_wgs, ScanObservation};
use wifi_scan_demo::store::CandidateStore;

fn obs(last: u8, ssid: &str, strength: i8) -> ScanObservation {
    ScanObservation {
        bssid: [0, 0, 0, 0, 0, last],
        ssid: String::from(ssid),
        signal_strength: strength,
    }
}

fn creds() -> Vec<Credential> {
    vec![
        Credential { ssid: "home", password: "SECRET-REDACTED" },
        Credential { ssid: "shed", password: "SECRET-REDACTED" },
    ]
}

#[test]
fn scan_keeps_only_allow_listed_names() {
    let r = scan_and_score_wgs(
        vec![
            obs(1, "home", -40),
            obs(2, "neighbour", -10),
            obs(3, "shed", -60),
        ],
        &creds(),
    );
    let names: Vec<u8> = r.iter().map(|c| c.bssid[5]).collect();
    assert_eq!(names, vec![1, 3]);
}

#[test]
fn scan_candidates_start_never_attempted_and_ranked() {
    let r = scan_and_score_wgs(
        vec![obs(1, "home", -70), obs(2, "shed", -30)],
        &creds(),
    );
    assert!(r.iter().all(|c| c.connect_outcome == ConnectOutcome::NeverAttempted));
    // ranked by signal strength within the one class
    assert_eq!(r[0].bssid[5], 2);
    assert_eq!(r[1].bssid[5], 1);
}

#[test]
fn scan_deduplicates_by_address_last_observation_wins() {
    let r = scan_and_score_wgs(
        vec![obs(1, "home", -80), obs(1, "home", -35)],
        &creds(),
    );
    assert_eq!(r.len(), 1);
    assert_eq!(r[0].signal_strength, -35);
}

#[test]
fn empty_scan_yields_empty_set() {
    let r = scan_and_score_wgs(Vec::new(), &creds());
    assert!(r.is_empty());
    let mut store = CandidateStore::new();
    merge_scan(&mut store, Vec::new(), &creds());
    assert!(store.best().is_none());
}

#[test]
fn merge_scan_carries_history_into_the_store() {
    let mut store = CandidateStore::new();
    merge_scan(&mut store, vec![obs(5, "home", -50)], &creds());
    store.mark_outcome(&[0, 0, 0, 0, 0, 5], ConnectOutcome::Failed);
    store.resort();
    merge_scan(&mut store, vec![obs(5, "home", -42)], &creds());
    let v = store.entries();
    assert_eq!(v.len(), 1);
    assert_eq!(v[0].connect_outcome, ConnectOutcome::Failed);
    assert_eq!(v[0].signal_strength, -42);
}

#[test]
fn names_match_byte_for_byte_beyond_ascii() {
    let list = vec![Credential { ssid: "caf\u{e9} wlan", password: "SECRET-REDACTED" }];
    let r = scan_and_score_wgs(
        vec![
            obs(1, "caf\u{e9} wlan", -40),
            obs(2, "cafe wlan", -20),
        ],
        &list,
    );
    assert_eq!(r.len(), 1);
    assert_eq!(r[0].bssid[5], 1);
}

#[test]
fn find_credential_returns_first_match() {
    let list = vec![
        Credential { ssid: "home", password: "SECRET-REDACTED" },
        Credential { ssid: "home", password: "SECRET-REDACTED-2" },
    ];
    let c = find_credential(&String::from("home"), &list).unwrap();
    assert_eq!(c.password, "SECRET-REDACTED");
}

#[test]
fn find_credential_fails_closed_on_unknown_name() {
    assert!(find_credential(&String::from("nowhere"), &creds()).is_none());
}
