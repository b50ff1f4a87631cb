//! Unit tests of the dedup/state store's claim discipline and of the
//! reconciler's removal rules.
use notification_dispatch::model::{
    AttemptKey, AttemptStatus, ChannelKind, DispatchReport, NotificationOutcome, ReportEntry,
};
use notification_dispatch::reconcile::{reconcile, removal_report};
use notification_dispatch::store::StateStore;

fn key(id: u64) -> AttemptKey {
    AttemptKey { notification_id: id, recipient: 5, channel: ChannelKind::Push }
}

/// A fresh key is claimable; the claim writes a Pending record counting one
/// attempt.
#[test]
fn claim_fresh_key() {
    let mut store = StateStore::new();
    assert!(store.get(key(1)).is_none());
    assert!(store.try_claim(key(1), 100, 60));
    let rec = store.get(key(1)).unwrap();
    assert_eq!(rec.status, AttemptStatus::Pending);
    assert_eq!(rec.attempt_count, 1);
    assert_eq!(rec.last_attempt, 100);
}

/// Claim exclusivity: while a claim's lease is live, a second claim on the
/// same key fails, whoever asks.
#[test]
fn no_double_claim_within_lease() {
    let mut store = StateStore::new();
    assert!(store.try_claim(key(1), 100, 60));
    assert!(!store.try_claim(key(1), 100, 60));
    assert!(!store.try_claim(key(1), 159, 60));
    // Another key is independent.
    assert!(store.try_claim(key(2), 100, 60));
}

/// A stale claim (lease expired, the worker never reported back) may be taken
/// over; the attempt count grows.
#[test]
fn stale_claim_can_be_retaken() {
    let mut store = StateStore::new();
    assert!(store.try_claim(key(1), 100, 60));
    assert!(store.try_claim(key(1), 160, 60));
    let rec = store.get(key(1)).unwrap();
    assert_eq!(rec.attempt_count, 2);
    assert_eq!(rec.last_attempt, 160);
}

/// A Failed key is claimable on a later run; a Delivered key never is.
#[test]
fn failed_retries_delivered_does_not() {
    let mut store = StateStore::new();
    assert!(store.try_claim(key(1), 100, 60));
    store.record_result(key(1), false);
    assert_eq!(store.get(key(1)).unwrap().status, AttemptStatus::Failed);
    assert!(store.try_claim(key(1), 101, 60));
    store.record_result(key(1), true);
    assert_eq!(store.get(key(1)).unwrap().status, AttemptStatus::Delivered);
    assert_eq!(store.get(key(1)).unwrap().attempt_count, 2);
    assert!(!store.try_claim(key(1), 10_000, 60));
}

/// Removal safety: only FullyDelivered entries are handed to the ledger for
/// removal, in report order.
#[test]
fn reconcile_selects_only_fully_delivered() {
    let report = DispatchReport {
        entries: vec![
            ReportEntry { id: 1, outcome: NotificationOutcome::FullyDelivered },
            ReportEntry { id: 2, outcome: NotificationOutcome::PartiallyDelivered },
            ReportEntry { id: 3, outcome: NotificationOutcome::Undeliverable },
            ReportEntry { id: 4, outcome: NotificationOutcome::Pending },
            ReportEntry { id: 5, outcome: NotificationOutcome::FullyDelivered },
        ],
    };
    assert_eq!(reconcile(&report), vec![1, 5]);
}

/// An empty report removes nothing.
#[test]
fn reconcile_empty_report() {
    let report = DispatchReport { entries: Vec::new() };
    assert_eq!(reconcile(&report), Vec::<u64>::new());
}

/// The removal report partitions the ids by the ledger's acknowledgement;
/// failed removals stay for a later run.
#[test]
fn removal_report_partitions_by_ack() {
    let ids = vec![1, 2, 3, 4];
    let ack = vec![true, false, true, false];
    let rep = removal_report(&ids, &ack);
    assert_eq!(rep.removed, vec![1, 3]);
    assert_eq!(rep.failed, vec![2, 4]);
}
