use ferry_runtime::notify::{Change, Notify, Report, HOLD_FOUND_MS, HOLD_MS};
use ferry_runtime::types::{EngineListener, PairingState};
use std::sync::atomic::{AtomicU64, Ordering};
use std::sync::Arc;

struct Counter {
    calls: Arc<AtomicU64>,
}

impl EngineListener for Counter {
    fn devices_changed(&self) {
        self.calls.fetch_add(1, Ordering::SeqCst);
    }

    fn transfers_changed(&self) {
        self.calls.fetch_add(1, Ordering::SeqCst);
    }

    fn pairing_changed(&self, _state: PairingState) {
        self.calls.fetch_add(1, Ordering::SeqCst);
    }

    fn access_log_changed(&self) {
        self.calls.fetch_add(1, Ordering::SeqCst);
    }
}

fn notify_with_counter() -> (Notify<Counter>, Arc<AtomicU64>) {
    let calls = Arc::new(AtomicU64::new(0));
    let notify = Notify::new(Counter { calls: Arc::clone(&calls) });
    (notify, calls)
}

/// Makes the calls that are listed.
fn deliver(notify: &mut Notify<Counter>) {
    if let Some((listener, reports)) = notify.take_reports() {
        for report in reports {
            match report {
                Report::Devices => listener.devices_changed(),
                Report::Transfers => listener.transfers_changed(),
                Report::AccessLog => listener.access_log_changed(),
                Report::Pairing(state) => listener.pairing_changed(state),
            }
        }
    }
}

#[test]
fn many_changes_of_one_kind_become_one_report() {
    let (mut notify, calls) = notify_with_counter();
    for _ in 0..1000 {
        notify.mark(Change::Transfers);
        let due = notify.take_due(5_000, false);
        notify.send(due);
        deliver(&mut notify);
    }
    assert_eq!(calls.load(Ordering::SeqCst), 1, "a thousand changes in a moment are one report");
}

#[test]
fn nothing_is_reported_once_the_slot_is_empty() {
    let (mut notify, calls) = notify_with_counter();
    notify.close();
    notify.mark(Change::Devices);
    let due = notify.take_due(5_000, true);
    notify.send(due);
    notify.pairing(PairingState::Idle);
    deliver(&mut notify);
    assert_eq!(
        calls.load(Ordering::SeqCst),
        0,
        "stop empties the slot, and an empty slot reports nothing"
    );
}

#[test]
fn a_change_that_waits_is_still_reported_in_the_end() {
    let (mut notify, calls) = notify_with_counter();
    notify.mark(Change::Devices);
    let first = notify.take_due(5_000, false);
    notify.send(first);
    deliver(&mut notify);
    notify.mark(Change::Devices);
    let held = notify.take_due(5_000, false);
    assert!(held.is_empty(), "the second change waits its turn");
    assert!(notify.next_turn(5_000).is_some(), "and something is waiting");
    let last = notify.take_due(5_000, true);
    notify.send(last);
    deliver(&mut notify);
    assert_eq!(calls.load(Ordering::SeqCst), 2, "the last state is told");
}

#[test]
fn a_change_waits_no_longer_than_its_hold() {
    let (mut notify, _calls) = notify_with_counter();
    notify.mark(Change::AccessLog);
    assert!(notify.take_due(1_000, false).access_log);
    notify.mark(Change::AccessLog);
    assert_eq!(notify.next_turn(1_000), Some(HOLD_MS));
    assert!(notify.take_due(1_000 + HOLD_MS - 1, false).is_empty());
    assert!(notify.take_due(1_000 + HOLD_MS, false).access_log);
    assert!(HOLD_FOUND_MS > HOLD_MS);
}

#[test]
fn one_timer_runs_at_a_time() {
    let (mut notify, _calls) = notify_with_counter();
    assert!(!notify.claim_timer(), "nothing waits");
    notify.mark(Change::Devices);
    assert!(notify.claim_timer());
    assert!(!notify.claim_timer());
    notify.release_timer();
    assert!(notify.claim_timer());
}

#[test]
fn a_pairing_state_is_told_at_once() {
    let (mut notify, calls) = notify_with_counter();
    assert!(notify.pairing(PairingState::Idle));
    assert!(notify.pairing(PairingState::Waiting { expires_unix_secs: 1 }));
    deliver(&mut notify);
    assert_eq!(calls.load(Ordering::SeqCst), 2);
    deliver(&mut notify);
    assert_eq!(calls.load(Ordering::SeqCst), 2, "a report is made once");
}

#[test]
fn each_kind_is_told_by_its_own_call_and_in_order() {
    let (mut notify, _calls) = notify_with_counter();
    notify.mark(Change::AccessLog);
    notify.mark(Change::Devices);
    notify.mark(Change::Found);
    let due = notify.take_due(5_000, false);
    let told = notify.send(due);
    assert!(told.devices && told.access_log && !told.transfers && !told.found);
    notify.pairing(PairingState::Waiting { expires_unix_secs: 7 });
    let (_, reports) = notify.take_reports().unwrap();
    assert_eq!(reports.len(), 3);
    assert!(matches!(reports[0], Report::Devices));
    assert!(matches!(reports[1], Report::AccessLog));
    assert!(matches!(
        reports[2],
        Report::Pairing(PairingState::Waiting { expires_unix_secs: 7 })
    ));
    notify.mark(Change::Transfers);
    let due = notify.take_due(5_000, false);
    notify.send(due);
    let (_, reports) = notify.take_reports().unwrap();
    assert!(matches!(reports[0], Report::Transfers));
    notify.pairing(PairingState::Idle);
    notify.close();
    assert!(notify.take_reports().is_none(), "what was not heard by then never is");
}
