//! Tests for the ranking policy: class precedence, signal ordering within a
//! class, and total-order consistency.

use std::cmp::Ordering;

use wifi_scan_demo::candidate::{ConnectOutcome, WifiConfig};

fn cand(last: u8, outcome: ConnectOutcome, strength: i8) -> WifiConfig {
    WifiConfig {
        bssid: [0, 0, 0, 0, 0, last],
        ssid: String::from("net"),
        signal_strength: strength,
        connect_outcome: outcome,
    }
}

#[test]
fn succeeded_beats_failed_whatever_the_signal() {
    let a = cand(1, ConnectOutcome::Succeeded, -90);
    let b = cand(2, ConnectOutcome::Failed, -20);
    assert_eq!(a.cmp(&b), Ordering::Greater);
    assert_eq!(b.cmp(&a), Ordering::Less);
}

#[test]
fn succeeded_beats_never_attempted() {
    let a = cand(1, ConnectOutcome::Succeeded, -90);
    let b = cand(2, ConnectOutcome::NeverAttempted, -20);
    assert_eq!(a.cmp(&b), Ordering::Greater);
    assert_eq!(b.cmp(&a), Ordering::Less);
}

#[test]
fn never_attempted_beats_failed() {
    let a = cand(1, ConnectOutcome::NeverAttempted, -90);
    let b = cand(2, ConnectOutcome::Failed, -20);
    assert_eq!(a.cmp(&b), Ordering::Greater);
    assert_eq!(b.cmp(&a), Ordering::Less);
}

#[test]
fn same_class_goes_by_signal_strength() {
    for outcome in [
        ConnectOutcome::Succeeded,
        ConnectOutcome::NeverAttempted,
        ConnectOutcome::Failed,
    ] {
        let strong = cand(1, outcome, -30);
        let weak = cand(2, outcome, -70);
        let tied = cand(3, outcome, -30);
        assert_eq!(strong.cmp(&weak), Ordering::Greater);
        assert_eq!(weak.cmp(&strong), Ordering::Less);
        assert_eq!(strong.cmp(&tied), Ordering::Equal);
    }
}

#[test]
fn order_is_consistent_across_triples() {
    // a deterministic spread of outcomes and strengths, checked pairwise for
    // antisymmetry and over all triples for transitivity
    let outcomes = [
        ConnectOutcome::Succeeded,
        ConnectOutcome::NeverAttempted,
        ConnectOutcome::Failed,
    ];
    let strengths: [i8; 4] = [-90, -55, -40, 0];
    let mut all = Vec::new();
    let mut n: u8 = 0;
    for &o in &outcomes {
        for &s in &strengths {
            all.push(cand(n, o, s));
            n += 1;
        }
    }
    for a in &all {
        assert_eq!(a.cmp(a), Ordering::Equal);
        for b in &all {
            assert_eq!(a.cmp(b), b.cmp(a).reverse());
            for c in &all {
                if a.cmp(b) != Ordering::Less && b.cmp(c) != Ordering::Less {
                    assert_ne!(a.cmp(c), Ordering::Less);
                }
                if a.cmp(b) == Ordering::Greater && b.cmp(c) == Ordering::Greater {
                    assert_eq!(a.cmp(c), Ordering::Greater);
                }
            }
        }
    }
}

#[test]
fn cmp_ss_compares_signal_alone() {
    let a = cand(1, ConnectOutcome::Failed, -30);
    let b = cand(2, ConnectOutcome::Succeeded, -60);
    assert_eq!(a.cmp_ss(&b), Ordering::Greater);
    assert_eq!(b.cmp_ss(&a), Ordering::Less);
}

#[test]
fn identity_equality_is_by_address_alone() {
    let a = cand(7, ConnectOutcome::Failed, -30);
    let mut b = cand(7, ConnectOutcome::Succeeded, -60);
    b.ssid = String::from("other");
    assert!(a == b);
    assert!(a.same_entity(&b));
    let c = cand(8, ConnectOutcome::Failed, -30);
    assert!(a != c);
    assert!(!a.same_entity(&c));
}
