//! End-to-end flows through the state machine, the policy monitor and the
//! signal mailbox, mirroring one task loop driving the other.

use wifi_scan_demo::candidate::{ConnectOutcome, WifiConfig};
use wifi_scan_demo::machine::{ConnectedEvent, ConnectionMachine, LinkState};
use wifi_scan_demo::mailbox::Mailbox;
use wifi_scan_demo::monitor::{PolicyMonitor, ScanSchedule};
use wifi_scan_demo::credentials::Credential;
use wifi_scan_demo::scan::{merge_scan, ScanObservation};
use wifi_scan_demo::store::CandidateStore;

fn cand(last: u8, outcome: ConnectOutcome, strength: i8) -> WifiConfig {
    WifiConfig {
        bssid: [0, 0, 0, 0, 0, last],
        ssid: String::from("home"),
        signal_strength: strength,
        connect_outcome: outcome,
    }
}

fn obs(last: u8, ssid: &str, strength: i8) -> ScanObservation {
    ScanObservation {
        bssid: [0, 0, 0, 0, 0, last],
        ssid: String::from(ssid),
        signal_strength: strength,
    }
}

fn creds() -> Vec<Credential> {
    vec![Credential { ssid: "home", password: "SECRET-REDACTED" }]
}

#[test]
fn cold_boot_scan_finds_one_candidate_and_persists_it() {
    // empty store, no persisted baseline
    let mut store = CandidateStore::new();
    let mut monitor = PolicyMonitor::new(None);
    merge_scan(&mut store, vec![obs(1, "home", -55)], &creds());
    let best = store.best();
    assert!(best.is_some());
    let best = best.unwrap();
    assert_eq!(best.bssid[5], 1);
    assert_eq!(best.connect_outcome, ConnectOutcome::NeverAttempted);
    let persist = monitor.on_scan_complete(Some(best));
    assert_eq!(persist.as_ref().map(|c| c.bssid[5]), Some(1));
    assert_eq!(monitor.baseline.as_ref().map(|c| c.bssid[5]), Some(1));
    assert!(monitor.new_best_found);
}

#[test]
fn class_precedence_outranks_signal_strength() {
    let mut store = CandidateStore::new();
    store.replace_all(vec![
        cand(1, ConnectOutcome::Failed, -40),
        cand(2, ConnectOutcome::NeverAttempted, -80),
    ]);
    assert_eq!(store.best().unwrap().bssid[5], 2);
}

#[test]
fn failed_attempt_books_failure_and_next_pick_differs() {
    let mut store = CandidateStore::new();
    store.replace_all(vec![
        cand(1, ConnectOutcome::NeverAttempted, -40),
        cand(2, ConnectOutcome::NeverAttempted, -60),
    ]);
    let mut machine = ConnectionMachine::new();
    let target = store.best().unwrap();
    assert_eq!(target.bssid[5], 1);
    // the connect attempt to the best candidate fails
    let found = machine.on_connect_result(&mut store, target.bssid, false);
    assert!(found);
    assert_eq!(machine.state, LinkState::Disconnected);
    let v = store.entries();
    assert_eq!(
        v.iter().find(|c| c.bssid[5] == 1).unwrap().connect_outcome,
        ConnectOutcome::Failed
    );
    // the next pick is the other, still-untried candidate
    assert_eq!(store.best().unwrap().bssid[5], 2);
}

#[test]
fn successful_attempt_connects_and_remembers_the_address() {
    let mut store = CandidateStore::new();
    store.replace_all(vec![cand(1, ConnectOutcome::NeverAttempted, -40)]);
    let mut machine = ConnectionMachine::new();
    let target = store.best().unwrap();
    machine.on_connect_result(&mut store, target.bssid, true);
    assert_eq!(machine.state, LinkState::Connected);
    assert_eq!(machine.current, Some(target.bssid));
    assert_eq!(
        store.entries()[0].connect_outcome,
        ConnectOutcome::Succeeded
    );
}

#[test]
fn link_loss_marks_current_failed_and_notifies() {
    let mut store = CandidateStore::new();
    store.replace_all(vec![cand(1, ConnectOutcome::NeverAttempted, -40)]);
    let mut machine = ConnectionMachine::new();
    let target = store.best().unwrap();
    machine.on_connect_result(&mut store, target.bssid, true);
    let notify = machine.on_connected_event(&mut store, ConnectedEvent::LinkLost);
    assert!(notify);
    assert_eq!(machine.state, LinkState::Disconnected);
    assert_eq!(machine.current, None);
    assert_eq!(store.entries()[0].connect_outcome, ConnectOutcome::Failed);
}

#[test]
fn scan_request_while_connected_keeps_the_link() {
    let mut store = CandidateStore::new();
    store.replace_all(vec![cand(1, ConnectOutcome::NeverAttempted, -40)]);
    let mut machine = ConnectionMachine::new();
    let target = store.best().unwrap();
    machine.on_connect_result(&mut store, target.bssid, true);
    let notify = machine.on_connected_event(&mut store, ConnectedEvent::ScanRequested);
    assert!(!notify);
    assert_eq!(machine.state, LinkState::Connected);
    assert_eq!(
        store.entries()[0].connect_outcome,
        ConnectOutcome::Succeeded
    );
}

#[test]
fn better_candidate_supersedes_baseline_and_old_one_does_not_return() {
    // persisted baseline is address 7; a scan finds only address 8, ranked higher
    let p = cand(7, ConnectOutcome::NeverAttempted, -70);
    let q = cand(8, ConnectOutcome::Succeeded, -50);
    let mut monitor = PolicyMonitor::new(Some(p.clone()));
    let persist = monitor.on_scan_complete(Some(q.clone()));
    assert_eq!(persist.as_ref().map(|c| c.bssid[5]), Some(8));
    assert_eq!(monitor.baseline.as_ref().map(|c| c.bssid[5]), Some(8));
    // a later scan sees address 7 again, now ranked below the baseline
    let persist = monitor.on_scan_complete(Some(p));
    assert!(persist.is_none());
    assert_eq!(monitor.baseline.as_ref().map(|c| c.bssid[5]), Some(8));
}

#[test]
fn best_equal_to_baseline_confirms_it() {
    let p = cand(7, ConnectOutcome::NeverAttempted, -70);
    let mut monitor = PolicyMonitor::new(Some(p.clone()));
    let persist = monitor.on_scan_complete(Some(p));
    assert_eq!(persist.as_ref().map(|c| c.bssid[5]), Some(7));
    assert!(monitor.new_best_found);
}

#[test]
fn no_best_and_no_baseline_does_nothing() {
    let mut monitor = PolicyMonitor::new(None);
    assert!(monitor.on_scan_complete(None).is_none());
    assert!(monitor.baseline.is_none());
    assert!(!monitor.new_best_found);
}

#[test]
fn rescan_schedule_follows_link_state_and_novelty() {
    let mut monitor = PolicyMonitor::new(None);
    assert_eq!(
        monitor.rescan_schedule(LinkState::Connected),
        ScanSchedule::AfterIdleTimeout
    );
    assert_eq!(
        monitor.rescan_schedule(LinkState::Disconnected),
        ScanSchedule::AfterRetryDelay
    );
    monitor.on_scan_complete(Some(cand(1, ConnectOutcome::NeverAttempted, -40)));
    assert_eq!(
        monitor.rescan_schedule(LinkState::Connected),
        ScanSchedule::NotScheduled
    );
}

#[test]
fn timing_policy_constants_hold_their_values() {
    assert_eq!(wifi_scan_demo::machine::BACKOFF_MILLIS, 3000);
    assert_eq!(wifi_scan_demo::monitor::RESCAN_IDLE_SECS, 3600);
    assert_eq!(wifi_scan_demo::monitor::RESCAN_RETRY_SECS, 300);
    assert_eq!(wifi_scan_demo::monitor::MONITOR_POLL_SECS, 10);
    assert_eq!(wifi_scan_demo::scan::SCAN_COUNT, 10);
    assert_eq!(wifi_scan_demo::candidate::MAX_SSID_BYTES, 32);
}

#[test]
fn mailbox_collapses_repeated_posts_to_the_latest() {
    let mut m: Mailbox<u32> = Mailbox::new();
    assert!(!m.signaled());
    assert_eq!(m.take(), None);
    m.post(1);
    m.post(2);
    assert!(m.signaled());
    assert_eq!(m.take(), Some(2));
    assert!(!m.signaled());
    assert_eq!(m.take(), None);
}
