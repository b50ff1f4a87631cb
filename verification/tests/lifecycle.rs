//! End-to-end scenarios of the dispatch-and-reconcile lifecycle, driven
//! through the public API with in-test stand-ins for the external gateways.
use notification_dispatch::dispatch::{build_report, dispatch_complete, dispatch_prepare, plan_run};
use notification_dispatch::model::{
    AttemptKey, AttemptStatus, ChannelEndpoint, ChannelKind, DirectoryEntry, FetchError,
    Notification, make_key,
};
use notification_dispatch::model::NotificationOutcome;
use notification_dispatch::reconcile::reconcile;
use notification_dispatch::store::StateStore;

const LEASE: u64 = 60;

fn notif(id: u64, recipient: u64) -> Notification {
    Notification {
        id,
        recipient,
        title: format!("title-{id}"),
        body: format!("body-{id}"),
        created_at: 1_000 + id,
    }
}

fn endpoint(kind: ChannelKind, address: &str, enabled: bool) -> ChannelEndpoint {
    ChannelEndpoint { kind, address: address.to_string(), enabled }
}

/// Scenario: one notification, only push enabled, the push send succeeds. The
/// outcome is FullyDelivered and the reconciler removes the id.
#[test]
fn push_only_success_is_fully_delivered_and_removed() {
    let n1 = notif(1, 10);
    let dir = vec![DirectoryEntry {
        recipient: 10,
        endpoints: vec![
            endpoint(ChannelKind::Push, "push-token-r1", true),
            endpoint(ChannelKind::Email, "r1@example.com", false),
        ],
    }];
    let mut store = StateStore::new();
    let notifs = vec![n1];

    let tasks = plan_run(&notifs, &dir, &mut store, 100, LEASE);
    assert_eq!(tasks.len(), 1);
    assert_eq!(tasks[0].key, AttemptKey { notification_id: 1, recipient: 10, channel: ChannelKind::Push });
    assert_eq!(tasks[0].address, "push-token-r1");
    assert_eq!(tasks[0].title, "title-1");

    // The push gateway accepts the message.
    let results = vec![true];
    let report = dispatch_complete(&notifs, &dir, &tasks, &results, &mut store);
    assert_eq!(report.entries.len(), 1);
    assert_eq!(report.entries[0].id, 1);
    assert_eq!(report.entries[0].outcome, NotificationOutcome::FullyDelivered);

    let to_remove = reconcile(&report);
    assert_eq!(to_remove, vec![1]);
}

/// Scenario: push and email enabled; push succeeds and email fails. The
/// outcome is PartiallyDelivered and nothing is removed. A later run retries
/// only the email channel (push is already Delivered and is not re-sent); once
/// email succeeds the notification becomes FullyDelivered and is removed.
#[test]
fn partial_then_full_delivery_without_resending_push() {
    let n2 = notif(2, 20);
    let dir = vec![DirectoryEntry {
        recipient: 20,
        endpoints: vec![
            endpoint(ChannelKind::Push, "push-token-r2", true),
            endpoint(ChannelKind::Email, "r2@example.com", true),
        ],
    }];
    let mut store = StateStore::new();
    let notifs = vec![n2];

    let tasks = plan_run(&notifs, &dir, &mut store, 100, LEASE);
    assert_eq!(tasks.len(), 2);

    // Push succeeds, email fails (order of tasks follows endpoint order).
    let results: Vec<bool> = tasks.iter().map(|t| t.key.channel == ChannelKind::Push).collect();
    let report = dispatch_complete(&notifs, &dir, &tasks, &results, &mut store);
    assert_eq!(report.entries[0].outcome, NotificationOutcome::PartiallyDelivered);
    assert_eq!(reconcile(&report), Vec::<u64>::new());

    // A later run: only the failed email key is claimable again.
    let tasks2 = plan_run(&notifs, &dir, &mut store, 200, LEASE);
    assert_eq!(tasks2.len(), 1);
    assert_eq!(tasks2[0].key.channel, ChannelKind::Email);

    let report2 = dispatch_complete(&notifs, &dir, &tasks2, &vec![true], &mut store);
    assert_eq!(report2.entries[0].outcome, NotificationOutcome::FullyDelivered);
    assert_eq!(reconcile(&report2), vec![2]);
}

/// Scenario: a recipient with zero enabled channels. The outcome is
/// Undeliverable, no send is attempted, and nothing is removed.
#[test]
fn zero_enabled_channels_is_undeliverable() {
    let n3 = notif(3, 30);
    let dir = vec![DirectoryEntry {
        recipient: 30,
        endpoints: vec![
            endpoint(ChannelKind::Push, "push-token-r3", false),
            endpoint(ChannelKind::Email, "r3@example.com", false),
        ],
    }];
    let mut store = StateStore::new();
    let notifs = vec![n3];
    let n3 = notif(3, 30);

    let tasks = plan_run(&notifs, &dir, &mut store, 100, LEASE);
    assert_eq!(tasks.len(), 0);

    let report = build_report(&notifs, &dir, &store);
    assert_eq!(report.entries[0].outcome, NotificationOutcome::Undeliverable);
    assert_eq!(reconcile(&report), Vec::<u64>::new());

    // No record was ever written for either channel.
    assert!(store.get(make_key(&n3, ChannelKind::Push)).is_none());
    assert!(store.get(make_key(&n3, ChannelKind::Email)).is_none());
}

/// A recipient missing from the directory snapshot (a failed lookup) counts
/// as zero enabled channels.
#[test]
fn missing_recipient_is_undeliverable() {
    let n = notif(4, 40);
    let dir: Vec<DirectoryEntry> = Vec::new();
    let mut store = StateStore::new();
    let notifs = vec![n];

    let tasks = plan_run(&notifs, &dir, &mut store, 100, LEASE);
    assert_eq!(tasks.len(), 0);
    let report = build_report(&notifs, &dir, &store);
    assert_eq!(report.entries[0].outcome, NotificationOutcome::Undeliverable);
}

/// Scenario: the ledger fetch fails. The run aborts before any delivery
/// attempt: the error is surfaced and no attempt record is created.
#[test]
fn fetch_failure_aborts_before_any_attempt() {
    let dir = vec![DirectoryEntry {
        recipient: 10,
        endpoints: vec![endpoint(ChannelKind::Push, "push-token-r1", true)],
    }];
    let mut store = StateStore::new();

    let fetched: Result<Vec<Notification>, FetchError> = Err(FetchError::Unauthorized);
    let r = dispatch_prepare(fetched, &dir, &mut store, 100, LEASE);
    match r {
        Err(e) => assert_eq!(e, FetchError::Unauthorized),
        Ok(_) => panic!("a failed fetch must abort the run"),
    }

    let probe = notif(1, 10);
    assert!(store.get(make_key(&probe, ChannelKind::Push)).is_none());
    assert!(store.get(make_key(&probe, ChannelKind::Email)).is_none());
}

/// An unreachable ledger aborts the run the same way as a rejected identity.
#[test]
fn unreachable_ledger_aborts() {
    let dir: Vec<DirectoryEntry> = Vec::new();
    let mut store = StateStore::new();
    let fetched: Result<Vec<Notification>, FetchError> = Err(FetchError::Unreachable);
    match dispatch_prepare(fetched, &dir, &mut store, 100, LEASE) {
        Err(e) => assert_eq!(e, FetchError::Unreachable),
        Ok(_) => panic!("a failed fetch must abort the run"),
    }
}

/// A successful fetch flows through dispatch_prepare into claimed tasks.
#[test]
fn fetch_success_plans_the_run() {
    let dir = vec![DirectoryEntry {
        recipient: 10,
        endpoints: vec![endpoint(ChannelKind::Push, "push-token-r1", true)],
    }];
    let mut store = StateStore::new();
    let fetched = Ok(vec![notif(1, 10)]);
    let (ns, tasks) = match dispatch_prepare(fetched, &dir, &mut store, 100, LEASE) {
        Ok(p) => p,
        Err(_) => panic!("a successful fetch must plan the run"),
    };
    assert_eq!(ns.len(), 1);
    assert_eq!(tasks.len(), 1);
    let rec = store.get(tasks[0].key).unwrap();
    assert_eq!(rec.status, AttemptStatus::Pending);
    assert_eq!(rec.attempt_count, 1);
}

/// Idempotence: after a run in which every send succeeded, a second run over
/// the same snapshot claims nothing and sends nothing.
#[test]
fn second_run_after_full_success_is_idle() {
    let dir = vec![
        DirectoryEntry {
            recipient: 10,
            endpoints: vec![
                endpoint(ChannelKind::Push, "push-token-r1", true),
                endpoint(ChannelKind::Email, "r1@example.com", true),
            ],
        },
        DirectoryEntry {
            recipient: 20,
            endpoints: vec![endpoint(ChannelKind::Email, "r2@example.com", true)],
        },
    ];
    let notifs = vec![notif(1, 10), notif(2, 20)];
    let mut store = StateStore::new();

    let tasks = plan_run(&notifs, &dir, &mut store, 100, LEASE);
    assert_eq!(tasks.len(), 3);
    let results = vec![true; tasks.len()];
    let report = dispatch_complete(&notifs, &dir, &tasks, &results, &mut store);
    assert!(report.entries.iter().all(|e| e.outcome == NotificationOutcome::FullyDelivered));

    // Second run: every key is Delivered, so nothing is claimed and every
    // attempt count stays where it was.
    let tasks2 = plan_run(&notifs, &dir, &mut store, 200, LEASE);
    assert_eq!(tasks2.len(), 0);
    for t in &tasks {
        let rec = store.get(t.key).unwrap();
        assert_eq!(rec.status, AttemptStatus::Delivered);
        assert_eq!(rec.attempt_count, 1);
    }
}

/// Two overlapping runs over the same notification set share the store as
/// their serialization point: the second run cannot claim a key the first
/// holds, so it attempts nothing while the first is in flight.
#[test]
fn overlapping_runs_cannot_double_claim() {
    let dir = vec![DirectoryEntry {
        recipient: 10,
        endpoints: vec![endpoint(ChannelKind::Push, "push-token-r1", true)],
    }];
    let notifs = vec![notif(1, 10)];
    let mut store = StateStore::new();

    // First run claims the key and has not reported back yet.
    let tasks_a = plan_run(&notifs, &dir, &mut store, 100, LEASE);
    assert_eq!(tasks_a.len(), 1);

    // A second run over the same snapshot, while the claim's lease is live,
    // finds nothing claimable.
    let tasks_b = plan_run(&notifs, &dir, &mut store, 130, LEASE);
    assert_eq!(tasks_b.len(), 0);

    // Only after the first run records a failure does the key open up again.
    store.record_result(tasks_a[0].key, false);
    let tasks_c = plan_run(&notifs, &dir, &mut store, 131, LEASE);
    assert_eq!(tasks_c.len(), 1);
}

/// Completeness: every fetched notification appears exactly once in the
/// report, at its fetch position.
#[test]
fn report_mentions_every_notification_exactly_once() {
    let dir = vec![DirectoryEntry {
        recipient: 10,
        endpoints: vec![endpoint(ChannelKind::Push, "push-token-r1", true)],
    }];
    let notifs = vec![notif(7, 10), notif(8, 99), notif(9, 10)];
    let mut store = StateStore::new();
    let tasks = plan_run(&notifs, &dir, &mut store, 100, LEASE);
    let results = vec![true; tasks.len()];
    let report = dispatch_complete(&notifs, &dir, &tasks, &results, &mut store);
    let ids: Vec<u64> = report.entries.iter().map(|e| e.id).collect();
    assert_eq!(ids, vec![7, 8, 9]);
}
