//! System-wide guarantees of the dispatch lifecycle, stated and proved over
//! the same spec functions the executable contracts use.
use vstd::prelude::*;

use crate::dispatch::{
    channel_delivered, dir_endpoints, ep_source, run_claimed_upto, run_image_upto, run_key,
    run_source,
};
use crate::model::{AttemptKey, AttemptStatus, DirectoryEntry, Notification, ReportEntry, SendTask};
use crate::reconcile::removable_ids;
use crate::store::{StateStore, claimed_record};

verus! {

/// Idempotence of a re-run: when every enabled (notification, channel) pair of
/// the snapshot is already recorded Delivered, a dispatch run has no source
/// pair, claims no key, and so (by `plan_run`'s contract) leaves the store
/// unchanged and produces no send task.
pub proof fn lemma_idempotent_rerun(
    ns: Seq<Notification>,
    dir: Seq<DirectoryEntry>,
    s: StateStore,
    now: u64,
    lease: u64,
)
    requires
        forall|i: int, j: int| 0 <= i < ns.len()
            && 0 <= j < dir_endpoints(dir, ns[i].recipient).len()
            && (#[trigger] dir_endpoints(dir, ns[i].recipient)[j]).enabled
            ==> channel_delivered(s, ns[i], dir_endpoints(dir, ns[i].recipient)[j].kind),
    ensures
        forall|i: int, j: int| !run_source(ns, dir, s, now, lease, i, j),
        forall|k: AttemptKey| !run_claimed_upto(ns, dir, s, now, lease, ns.len() as int, k),
        forall|t: SendTask| !run_image_upto(ns, dir, s, now, lease, ns.len() as int, t),
{
    assert forall|i: int, j: int| !run_source(ns, dir, s, now, lease, i, j) by {
        if run_source(ns, dir, s, now, lease, i, j) {
            let eps = dir_endpoints(dir, ns[i].recipient);
            assert(channel_delivered(s, ns[i], eps[j].kind));
            assert(!s.claimable(crate::model::key_of(ns[i], eps[j].kind), now, lease));
        }
    }
    assert forall|k: AttemptKey| !run_claimed_upto(ns, dir, s, now, lease, ns.len() as int, k) by {
        if run_claimed_upto(ns, dir, s, now, lease, ns.len() as int, k) {
            let (i, j) = choose|i: int, j: int| i < ns.len()
                && run_source(ns, dir, s, now, lease, i, j) && run_key(ns, dir, i, j) == k;
            assert(!run_source(ns, dir, s, now, lease, i, j));
        }
    }
    assert forall|t: SendTask| !run_image_upto(ns, dir, s, now, lease, ns.len() as int, t) by {
        if run_image_upto(ns, dir, s, now, lease, ns.len() as int, t) {
            let (i, j) = choose|i: int, j: int| i < ns.len()
                && run_source(ns, dir, s, now, lease, i, j)
                && crate::dispatch::task_from_ep(
                    ns[i], dir_endpoints(dir, ns[i].recipient), t, j);
            assert(!run_source(ns, dir, s, now, lease, i, j));
        }
    }
}

/// Claim exclusivity: once a claim on a key succeeds at time `now1`, every
/// claim attempt on that key before the lease expires fails — no two workers
/// hold the same (notification, recipient, channel) key at once.
pub proof fn lemma_no_double_claim(
    pre: StateStore,
    post: StateStore,
    k: AttemptKey,
    now1: u64,
    now2: u64,
    lease: u64,
)
    requires
        pre.claimable(k, now1, lease),
        post.lookup(k) == Some(claimed_record(pre.lookup(k), now1)),
        now2 < now1 + lease,
    ensures
        !post.claimable(k, now2, lease),
{
    assert(post.lookup(k)->Some_0.status == AttemptStatus::Pending);
    assert(post.lookup(k)->Some_0.last_attempt == now1);
}

/// A key recorded Delivered is never claimable again, at any time and under
/// any lease: a delivered (notification, recipient, channel) pair is never
/// re-attempted.
pub proof fn lemma_delivered_is_terminal(s: StateStore, k: AttemptKey, now: u64, lease: u64)
    requires
        s.lookup(k) matches Some(r) && r.status == AttemptStatus::Delivered,
    ensures
        !s.claimable(k, now, lease),
{
}

/// Report completeness: a report whose entries mirror the fetched snapshot
/// positionally mentions every fetched id, and mentions no id twice when the
/// snapshot's ids are unique — every fetched notification appears exactly
/// once.
pub proof fn lemma_report_exactly_once(ns: Seq<Notification>, entries: Seq<ReportEntry>)
    requires
        entries.len() == ns.len(),
        forall|i: int| 0 <= i < ns.len() ==> (#[trigger] entries[i]).id == ns[i].id,
        crate::dispatch::unique_ids(ns),
    ensures
        forall|i: int| 0 <= i < ns.len() ==> report_mentions(entries, (#[trigger] ns[i]).id),
        forall|t1: int, t2: int| 0 <= t1 < t2 < entries.len()
            ==> entries[t1].id != entries[t2].id,
{
    assert forall|i: int| 0 <= i < ns.len() implies report_mentions(entries, (#[trigger] ns[i]).id) by {
        assert(entries[i].id == ns[i].id);
    }
}

/// Some entry of the report carries id `x`.
pub open spec fn report_mentions(entries: Seq<ReportEntry>, x: u64) -> bool {
    exists|t: int| 0 <= t < entries.len() && (#[trigger] entries[t]).id == x
}

/// Removal safety: an id whose every report entry is something other than
/// FullyDelivered is never handed to the ledger for removal.
pub proof fn lemma_removal_safety(entries: Seq<ReportEntry>, x: u64)
    requires
        forall|i: int| 0 <= i < entries.len() && (#[trigger] entries[i]).id == x
            ==> entries[i].outcome != crate::model::NotificationOutcome::FullyDelivered,
    ensures
        !removable_ids(entries).contains(x),
    decreases entries.len(),
{
    if entries.len() > 0 {
        assert(forall|i: int| 0 <= i < entries.drop_last().len()
            ==> entries.drop_last()[i] == entries[i]);
        lemma_removal_safety(entries.drop_last(), x);
        let r = removable_ids(entries);
        let rp = removable_ids(entries.drop_last());
        assert(!(exists|t: int| 0 <= t < rp.len() && rp[t] == x));
        if entries.last().outcome == crate::model::NotificationOutcome::FullyDelivered {
            assert(entries[entries.len() - 1].id != x);
            assert(r == rp.push(entries.last().id));
            assert forall|t: int| 0 <= t < r.len() implies r[t] != x by {
                if t < rp.len() {
                    assert(r[t] == rp[t]);
                } else {
                    assert(r[t] == entries.last().id);
                }
            }
            assert(!r.contains(x));
        } else {
            assert(!r.contains(x));
        }
    } else {
        assert(removable_ids(entries).len() == 0);
        assert(!removable_ids(entries).contains(x));
    }
}

/// The attempt count never decreases: a fresh claim counts one more attempt
/// (saturating at the largest representable count) and recording a result
/// keeps the count.
pub proof fn lemma_attempt_count_monotone(
    prev: Option<crate::model::DeliveryAttemptRecord>,
    now: u64,
    delivered: bool,
)
    ensures
        prev matches Some(r) ==> claimed_record(prev, now).attempt_count >= r.attempt_count,
        prev matches Some(r) ==> crate::store::recorded(r, delivered).attempt_count
            == r.attempt_count,
        claimed_record(None, now).attempt_count == 1,
{
}

/// Dispatch twice in succession: over one snapshot, with no new notifications
/// and no external change, a first run in which every send succeeded leaves
/// every enabled (notification, channel) pair Delivered, so a second run —
/// whenever it happens and whatever its lease — claims no key and produces no
/// delivery attempt. `s0` is the store before the first run, `s1` the store
/// after its claims, `s2` the store after all its results were recorded as
/// delivered; the premises are exactly what `plan_run` and `record_results`
/// guarantee. The first premise rules out a live foreign claim at the start:
/// a pair neither Delivered nor claimable belongs to a concurrent run still
/// in flight, and stays pending for it.
pub proof fn lemma_dispatch_twice_idle(
    ns: Seq<Notification>,
    dir: Seq<DirectoryEntry>,
    s0: StateStore,
    s1: StateStore,
    s2: StateStore,
    now: u64,
    lease: u64,
    now2: u64,
    lease2: u64,
)
    requires
        forall|i: int, j: int| 0 <= i < ns.len()
            && 0 <= j < dir_endpoints(dir, ns[i].recipient).len()
            && (#[trigger] dir_endpoints(dir, ns[i].recipient)[j]).enabled
            ==> channel_delivered(s0, ns[i], dir_endpoints(dir, ns[i].recipient)[j].kind)
                || s0.claimable(
                    crate::model::key_of(ns[i], dir_endpoints(dir, ns[i].recipient)[j].kind),
                    now, lease),
        forall|k: AttemptKey| #[trigger] s1.lookup(k) == (if run_claimed_upto(
            ns, dir, s0, now, lease, ns.len() as int, k) {
            Some(claimed_record(s0.lookup(k), now))
        } else {
            s0.lookup(k)
        }),
        forall|k: AttemptKey| run_claimed_upto(ns, dir, s0, now, lease, ns.len() as int, k)
            ==> #[trigger] s2.lookup(k) == Some(crate::store::recorded(s1.lookup(k)->Some_0, true)),
        forall|k: AttemptKey| !run_claimed_upto(ns, dir, s0, now, lease, ns.len() as int, k)
            ==> #[trigger] s2.lookup(k) == s1.lookup(k),
    ensures
        forall|i: int, j: int| 0 <= i < ns.len()
            && 0 <= j < dir_endpoints(dir, ns[i].recipient).len()
            && (#[trigger] dir_endpoints(dir, ns[i].recipient)[j]).enabled
            ==> channel_delivered(s2, ns[i], dir_endpoints(dir, ns[i].recipient)[j].kind),
        forall|i: int, j: int| !run_source(ns, dir, s2, now2, lease2, i, j),
        forall|k: AttemptKey| !run_claimed_upto(ns, dir, s2, now2, lease2, ns.len() as int, k),
        forall|t: SendTask| !run_image_upto(ns, dir, s2, now2, lease2, ns.len() as int, t),
{
    assert forall|i: int, j: int| 0 <= i < ns.len()
        && 0 <= j < dir_endpoints(dir, ns[i].recipient).len()
        && (#[trigger] dir_endpoints(dir, ns[i].recipient)[j]).enabled
        implies channel_delivered(s2, ns[i], dir_endpoints(dir, ns[i].recipient)[j].kind) by {
        let eps = dir_endpoints(dir, ns[i].recipient);
        let k = crate::model::key_of(ns[i], eps[j].kind);
        if s0.claimable(k, now, lease) {
            assert(ep_source(ns[i], eps, s0, now, lease, j));
            assert(run_source(ns, dir, s0, now, lease, i, j) && run_key(ns, dir, i, j) == k);
            assert(run_claimed_upto(ns, dir, s0, now, lease, ns.len() as int, k));
            assert(s1.lookup(k) == Some(claimed_record(s0.lookup(k), now)));
            assert(s2.lookup(k) == Some(crate::store::recorded(claimed_record(s0.lookup(k), now), true)));
        } else {
            assert(channel_delivered(s0, ns[i], eps[j].kind));
            if run_claimed_upto(ns, dir, s0, now, lease, ns.len() as int, k) {
                let (i2, j2) = choose|i2: int, j2: int| i2 < ns.len()
                    && run_source(ns, dir, s0, now, lease, i2, j2)
                    && run_key(ns, dir, i2, j2) == k;
                assert(s0.claimable(k, now, lease));
                assert(false);
            }
            assert(s2.lookup(k) == s1.lookup(k));
            assert(s1.lookup(k) == s0.lookup(k));
        }
    }
    lemma_idempotent_rerun(ns, dir, s2, now2, lease2);
}

} // verus!
