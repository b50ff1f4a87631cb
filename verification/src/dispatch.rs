//! The dispatcher: plans one run's delivery attempts. For every fetched
//! notification it resolves the recipient's enabled endpoints, skips keys the
//! dedup store already shows Delivered, claims each remaining key, and emits
//! one send task per successful claim. Recording results and aggregating the
//! per-notification outcome live here as well.
use vstd::prelude::*;

use crate::model::{
    AttemptKey, AttemptStatus, ChannelEndpoint, ChannelKind, DirectoryEntry, DispatchReport,
    FetchError, Notification, NotificationOutcome, ReportEntry, SendTask, key_of, make_key,
};
use crate::store::{StateStore, claimed_record, recorded};

verus! {

/// The endpoints the directory snapshot stores for a recipient: those of the
/// first entry for that recipient, or none when the directory has no entry (a
/// failed or empty lookup counts as zero enabled channels).
pub open spec fn dir_endpoints(dir: Seq<DirectoryEntry>, recipient: u64) -> Seq<ChannelEndpoint>
    decreases dir.len(),
{
    if dir.len() == 0 {
        Seq::empty()
    } else if dir[0].recipient == recipient {
        dir[0].endpoints@
    } else {
        dir_endpoints(dir.drop_first(), recipient)
    }
}

/// A well-formed endpoint list holds at most one enabled endpoint per channel
/// kind, so each (notification, channel) pair maps to one attempt key.
pub open spec fn eps_wf(eps: Seq<ChannelEndpoint>) -> bool {
    forall|j1: int, j2: int|
        0 <= j1 < j2 < eps.len() && eps[j1].enabled && eps[j2].enabled ==> eps[j1].kind != eps[j2].kind
}

/// A well-formed directory snapshot: every entry's endpoint list is
/// well-formed.
pub open spec fn dir_wf(dir: Seq<DirectoryEntry>) -> bool {
    forall|i: int| 0 <= i < dir.len() ==> eps_wf(#[trigger] dir[i].endpoints@)
}

/// Ledger ids are identities: one snapshot never returns the same id twice.
pub open spec fn unique_ids(ns: Seq<Notification>) -> bool {
    forall|i1: int, i2: int| 0 <= i1 < i2 < ns.len() ==> ns[i1].id != ns[i2].id
}

/// Endpoint `j` of `eps` is a source of work for notification `n`: it is
/// enabled and its attempt key is claimable in baseline store `s0`.
pub open spec fn ep_source(
    n: Notification,
    eps: Seq<ChannelEndpoint>,
    s0: StateStore,
    now: u64,
    lease: u64,
    j: int,
) -> bool {
    0 <= j < eps.len() && eps[j].enabled && s0.claimable(key_of(n, eps[j].kind), now, lease)
}

/// The attempt key of notification `n` on endpoint `j`.
pub open spec fn ep_key(n: Notification, eps: Seq<ChannelEndpoint>, j: int) -> AttemptKey {
    key_of(n, eps[j].kind)
}

/// Task `t` carries exactly the payload and address of notification `n` on
/// endpoint `j`.
pub open spec fn task_from_ep(n: Notification, eps: Seq<ChannelEndpoint>, t: SendTask, j: int) -> bool {
    &&& t.key == ep_key(n, eps, j)
    &&& t.address@ == eps[j].address@
    &&& t.title@ == n.title@
    &&& t.body@ == n.body@
}

/// First directory entry for a recipient, if any.
fn find_recipient(dir: &Vec<DirectoryEntry>, recipient: u64) -> (r: Option<usize>)
    ensures
        match r {
            Some(i) => i < dir@.len() && dir@[i as int].recipient == recipient
                && dir_endpoints(dir@, recipient) == dir@[i as int].endpoints@,
            None => dir_endpoints(dir@, recipient) == Seq::<ChannelEndpoint>::empty(),
        },
{
    let n = dir.len();
    let mut i: usize = 0;
    while i < n
        invariant
            n == dir@.len(),
            i <= n,
            forall|j: int| 0 <= j < i ==> dir@[j].recipient != recipient,
        decreases n - i,
    {
        if dir[i].recipient == recipient {
            proof {
                lemma_dir_endpoints_first(dir@, recipient, i as int);
            }
            return Some(i);
        }
        i += 1;
    }
    proof {
        lemma_dir_endpoints_none(dir@, recipient);
    }
    None
}

/// First-match semantics of the directory lookup.
proof fn lemma_dir_endpoints_first(dir: Seq<DirectoryEntry>, recipient: u64, i: int)
    requires
        0 <= i < dir.len(),
        dir[i].recipient == recipient,
        forall|j: int| 0 <= j < i ==> dir[j].recipient != recipient,
    ensures
        dir_endpoints(dir, recipient) == dir[i].endpoints@,
    decreases i,
{
    if i > 0 {
        lemma_dir_endpoints_first(dir.drop_first(), recipient, i - 1);
    }
}

/// A recipient with no directory entry has no endpoints.
proof fn lemma_dir_endpoints_none(dir: Seq<DirectoryEntry>, recipient: u64)
    requires
        forall|j: int| 0 <= j < dir.len() ==> dir[j].recipient != recipient,
    ensures
        dir_endpoints(dir, recipient) == Seq::<ChannelEndpoint>::empty(),
    decreases dir.len(),
{
    if dir.len() > 0 {
        lemma_dir_endpoints_none(dir.drop_first(), recipient);
    }
}

/// Key `k` is claimed for notification `n` by one of the endpoints before
/// index `jb`: that endpoint is enabled and `k` was claimable in `s0`.
pub open spec fn claimed_key_upto(
    n: Notification,
    eps: Seq<ChannelEndpoint>,
    s0: StateStore,
    now: u64,
    lease: u64,
    jb: int,
    k: AttemptKey,
) -> bool {
    exists|j: int| j < jb && #[trigger] ep_source(n, eps, s0, now, lease, j) && ep_key(n, eps, j) == k
}

/// Task `t` is the image of one enabled claimable endpoint of `n` before
/// index `jb`.
pub open spec fn task_image_upto(
    n: Notification,
    eps: Seq<ChannelEndpoint>,
    s0: StateStore,
    now: u64,
    lease: u64,
    jb: int,
    t: SendTask,
) -> bool {
    exists|j: int| j < jb && #[trigger] ep_source(n, eps, s0, now, lease, j) && task_from_ep(n, eps, t, j)
}

/// Plans the delivery attempts of one notification: walks the recipient's
/// endpoints, and for each enabled one whose key is claimable in the store at
/// entry, claims the key and appends one send task. Keys already Delivered,
/// keys under a live claim, and disabled endpoints yield no task. Appended
/// task keys are distinct and belong to this notification.
#[verifier::loop_isolation(false)]
fn plan_notification(
    n: &Notification,
    eps: &Vec<ChannelEndpoint>,
    store: &mut StateStore,
    now: u64,
    lease: u64,
    tasks: &mut Vec<SendTask>,
)
    requires
        eps_wf(eps@),
    ensures
        // The store changes exactly at the claimed keys of this notification.
        forall|k: AttemptKey| final(store).lookup(k) == (if claimed_key_upto(
            *n, eps@, *old(store), now, lease, eps@.len() as int, k) {
            Some(claimed_record(old(store).lookup(k), now))
        } else {
            old(store).lookup(k)
        }),
        // Earlier tasks are kept.
        final(tasks)@.len() >= old(tasks)@.len(),
        forall|t: int| 0 <= t < old(tasks)@.len() ==> final(tasks)@[t] == old(tasks)@[t],
        // Every appended task is the image of one enabled claimable endpoint.
        forall|t: int| old(tasks)@.len() <= t < final(tasks)@.len() ==> task_image_upto(
            *n, eps@, *old(store), now, lease, eps@.len() as int, final(tasks)@[t]),
        // Every enabled claimable endpoint got a task.
        forall|j: int| #[trigger] ep_source(*n, eps@, *old(store), now, lease, j) ==> exists|t: int|
            old(tasks)@.len() <= t < final(tasks)@.len() && final(tasks)@[t].key == ep_key(*n, eps@, j),
        // Appended task keys are pairwise distinct and name this notification.
        forall|t1: int, t2: int|
            old(tasks)@.len() <= t1 < t2 < final(tasks)@.len()
                ==> final(tasks)@[t1].key != final(tasks)@[t2].key,
        forall|t: int| old(tasks)@.len() <= t < final(tasks)@.len()
            ==> (#[trigger] final(tasks)@[t].key).notification_id == n.id
                && final(tasks)@[t].key.recipient == n.recipient,
{
    let ghost s0 = *store;
    let ghost t0 = tasks@.len() as int;
    let m = eps.len();
    let mut j: usize = 0;
    while j < m
        invariant
            m == eps@.len(),
            j <= m,
            eps_wf(eps@),
            forall|k: AttemptKey| store.lookup(k) == (if claimed_key_upto(
                *n, eps@, s0, now, lease, j as int, k) {
                Some(claimed_record(s0.lookup(k), now))
            } else {
                s0.lookup(k)
            }),
            tasks@.len() >= t0,
            forall|t: int| 0 <= t < t0 ==> tasks@[t] == old(tasks)@[t],
            forall|t: int| t0 <= t < tasks@.len() ==> task_image_upto(
                *n, eps@, s0, now, lease, j as int, tasks@[t]),
            forall|j2: int| j2 < j && #[trigger] ep_source(*n, eps@, s0, now, lease, j2)
                ==> exists|t: int| t0 <= t < tasks@.len() && tasks@[t].key == ep_key(*n, eps@, j2),
            forall|t1: int, t2: int| t0 <= t1 < t2 < tasks@.len() ==> tasks@[t1].key != tasks@[t2].key,
            forall|t: int| t0 <= t < tasks@.len()
                ==> (#[trigger] tasks@[t].key).notification_id == n.id
                    && tasks@[t].key.recipient == n.recipient,
        decreases m - j,
    {
        let ghost jj = j as int;
        let e = &eps[j];
        if e.enabled {
            let k = make_key(n, e.kind);
            proof {
                // No endpoint before `j` can have claimed this key: an earlier
                // enabled endpoint has a different kind.
                assert forall|j2: int| j2 < jj && #[trigger] ep_source(*n, eps@, s0, now, lease, j2)
                    implies ep_key(*n, eps@, j2) != k by {
                    assert(eps@[j2].kind != eps@[jj].kind);
                }
                assert(!claimed_key_upto(*n, eps@, s0, now, lease, jj, k));
                assert(store.lookup(k) == s0.lookup(k));
            }
            let claimed = store.try_claim(k, now, lease);
            if claimed {
                let task = SendTask {
                    key: k,
                    address: e.address.clone(),
                    title: n.title.clone(),
                    body: n.body.clone(),
                };
                let ghost pre_tasks = tasks@;
                proof {
                    assert(ep_source(*n, eps@, s0, now, lease, jj));
                    // The new task key differs from every task appended so
                    // far: those came from earlier enabled endpoints, whose
                    // kinds differ.
                    assert forall|t: int| t0 <= t < pre_tasks.len() implies pre_tasks[t].key != k by {
                        let j2 = choose|j2: int| j2 < jj
                            && ep_source(*n, eps@, s0, now, lease, j2)
                            && task_from_ep(*n, eps@, pre_tasks[t], j2);
                        assert(eps@[j2].kind != eps@[jj].kind);
                    }
                }
                tasks.push(task);
                proof {
                    let ghost tl = tasks@.len() as int;
                    assert(tasks@ == pre_tasks.push(task));
                    assert(tasks@[tl - 1] == task);
                    assert(forall|t: int| 0 <= t < pre_tasks.len() ==> tasks@[t] == pre_tasks[t]);
                    assert(task_from_ep(*n, eps@, task, jj));
                    // Store: the claimed-key set grew by exactly `k`.
                    assert forall|k2: AttemptKey| #[trigger] store.lookup(k2) == (if claimed_key_upto(
                        *n, eps@, s0, now, lease, jj + 1, k2) {
                        Some(claimed_record(s0.lookup(k2), now))
                    } else {
                        s0.lookup(k2)
                    }) by {
                        if k2 == k {
                            assert(ep_source(*n, eps@, s0, now, lease, jj)
                                && ep_key(*n, eps@, jj) == k2);
                            assert(claimed_key_upto(*n, eps@, s0, now, lease, jj + 1, k2));
                        } else {
                            if claimed_key_upto(*n, eps@, s0, now, lease, jj + 1, k2) {
                                let j2 = choose|j2: int| j2 < jj + 1
                                    && ep_source(*n, eps@, s0, now, lease, j2)
                                    && ep_key(*n, eps@, j2) == k2;
                                assert(j2 < jj);
                                assert(claimed_key_upto(*n, eps@, s0, now, lease, jj, k2));
                            } else {
                                assert(!claimed_key_upto(*n, eps@, s0, now, lease, jj, k2));
                            }
                        }
                    }
                    // Images: old tasks keep theirs, the new one is endpoint `j`.
                    assert forall|t: int| t0 <= t < tl implies task_image_upto(
                        *n, eps@, s0, now, lease, jj + 1, tasks@[t]) by {
                        if t < tl - 1 {
                            assert(tasks@[t] == pre_tasks[t]);
                            let j2 = choose|j2: int| j2 < jj
                                && ep_source(*n, eps@, s0, now, lease, j2)
                                && task_from_ep(*n, eps@, pre_tasks[t], j2);
                            assert(j2 < jj + 1 && ep_source(*n, eps@, s0, now, lease, j2)
                                && task_from_ep(*n, eps@, tasks@[t], j2));
                        } else {
                            assert(jj < jj + 1 && ep_source(*n, eps@, s0, now, lease, jj)
                                && task_from_ep(*n, eps@, tasks@[t], jj));
                        }
                    }
                    // Completeness: endpoint `j` has the new task, earlier
                    // endpoints keep their old one.
                    assert forall|j2: int| j2 < jj + 1 && #[trigger] ep_source(*n, eps@, s0, now, lease, j2)
                        implies exists|t: int| t0 <= t < tasks@.len()
                            && tasks@[t].key == ep_key(*n, eps@, j2) by {
                        if j2 == jj {
                            assert(t0 <= tl - 1 < tasks@.len()
                                && tasks@[tl - 1].key == ep_key(*n, eps@, jj));
                        } else {
                            let t = choose|t: int| t0 <= t < pre_tasks.len()
                                && pre_tasks[t].key == ep_key(*n, eps@, j2);
                            assert(tasks@[t] == pre_tasks[t]);
                            assert(t0 <= t < tasks@.len() && tasks@[t].key == ep_key(*n, eps@, j2));
                        }
                    }
                    // Distinctness: the new key was shown fresh above.
                    assert forall|t1: int, t2: int| t0 <= t1 < t2 < tl
                        implies tasks@[t1].key != tasks@[t2].key by {
                        assert(tasks@[t1] == pre_tasks[t1]);
                        if t2 < tl - 1 {
                            assert(tasks@[t2] == pre_tasks[t2]);
                        } else {
                            assert(tasks@[t2] == task);
                            assert(pre_tasks[t1].key != k);
                        }
                    }
                    // Every appended key names this notification.
                    assert forall|t: int| t0 <= t < tl
                        implies (#[trigger] tasks@[t].key).notification_id == n.id
                            && tasks@[t].key.recipient == n.recipient by {
                        if t < tl - 1 {
                            assert(tasks@[t] == pre_tasks[t]);
                        } else {
                            assert(tasks@[t].key == k);
                        }
                    }
                }
            } else {
                proof {
                    assert(!ep_source(*n, eps@, s0, now, lease, jj));
                    lemma_skip_endpoint(*n, eps@, s0, now, lease, jj);
                }
            }
        } else {
            proof {
                assert(!ep_source(*n, eps@, s0, now, lease, jj));
                lemma_skip_endpoint(*n, eps@, s0, now, lease, jj);
            }
        }
        j += 1;
    }
}

/// When endpoint `j` contributes no work, the claimed-key and task-image
/// predicates at bound `j + 1` coincide with those at bound `j`.
proof fn lemma_skip_endpoint(
    n: Notification,
    eps: Seq<ChannelEndpoint>,
    s0: StateStore,
    now: u64,
    lease: u64,
    j: int,
)
    requires
        !ep_source(n, eps, s0, now, lease, j),
    ensures
        forall|k: AttemptKey| #[trigger] claimed_key_upto(n, eps, s0, now, lease, j + 1, k)
            == claimed_key_upto(n, eps, s0, now, lease, j, k),
        forall|t: SendTask| #[trigger] task_image_upto(n, eps, s0, now, lease, j + 1, t)
            == task_image_upto(n, eps, s0, now, lease, j, t),
{
    assert forall|k: AttemptKey| #[trigger] claimed_key_upto(n, eps, s0, now, lease, j + 1, k)
        == claimed_key_upto(n, eps, s0, now, lease, j, k) by {
        if claimed_key_upto(n, eps, s0, now, lease, j + 1, k) {
            let j2 = choose|j2: int| j2 < j + 1 && ep_source(n, eps, s0, now, lease, j2)
                && ep_key(n, eps, j2) == k;
            assert(j2 < j);
            assert(claimed_key_upto(n, eps, s0, now, lease, j, k));
        }
        if claimed_key_upto(n, eps, s0, now, lease, j, k) {
            let j2 = choose|j2: int| j2 < j && ep_source(n, eps, s0, now, lease, j2)
                && ep_key(n, eps, j2) == k;
            assert(j2 < j + 1 && ep_source(n, eps, s0, now, lease, j2) && ep_key(n, eps, j2) == k);
        }
    }
    assert forall|t: SendTask| #[trigger] task_image_upto(n, eps, s0, now, lease, j + 1, t)
        == task_image_upto(n, eps, s0, now, lease, j, t) by {
        if task_image_upto(n, eps, s0, now, lease, j + 1, t) {
            let j2 = choose|j2: int| j2 < j + 1 && ep_source(n, eps, s0, now, lease, j2)
                && task_from_ep(n, eps, t, j2);
            assert(j2 < j);
            assert(task_image_upto(n, eps, s0, now, lease, j, t));
        }
        if task_image_upto(n, eps, s0, now, lease, j, t) {
            let j2 = choose|j2: int| j2 < j && ep_source(n, eps, s0, now, lease, j2)
                && task_from_ep(n, eps, t, j2);
            assert(j2 < j + 1 && ep_source(n, eps, s0, now, lease, j2) && task_from_ep(n, eps, t, j2));
        }
    }
}

/// Endpoint `j` of notification `i`'s recipient is enabled and its key is
/// claimable in baseline store `s0`.
pub open spec fn run_source(
    ns: Seq<Notification>,
    dir: Seq<DirectoryEntry>,
    s0: StateStore,
    now: u64,
    lease: u64,
    i: int,
    j: int,
) -> bool {
    0 <= i < ns.len() && ep_source(ns[i], dir_endpoints(dir, ns[i].recipient), s0, now, lease, j)
}

/// The attempt key of notification `i` on endpoint `j` of its recipient.
pub open spec fn run_key(ns: Seq<Notification>, dir: Seq<DirectoryEntry>, i: int, j: int) -> AttemptKey {
    ep_key(ns[i], dir_endpoints(dir, ns[i].recipient), j)
}

/// Key `k` is claimed by some source pair of the first `ib` notifications.
pub open spec fn run_claimed_upto(
    ns: Seq<Notification>,
    dir: Seq<DirectoryEntry>,
    s0: StateStore,
    now: u64,
    lease: u64,
    ib: int,
    k: AttemptKey,
) -> bool {
    exists|i: int, j: int| i < ib && #[trigger] run_source(ns, dir, s0, now, lease, i, j)
        && run_key(ns, dir, i, j) == k
}

/// Task `t` is the image of one source pair of the first `ib` notifications.
pub open spec fn run_image_upto(
    ns: Seq<Notification>,
    dir: Seq<DirectoryEntry>,
    s0: StateStore,
    now: u64,
    lease: u64,
    ib: int,
    t: SendTask,
) -> bool {
    exists|i: int, j: int| i < ib && #[trigger] run_source(ns, dir, s0, now, lease, i, j)
        && task_from_ep(ns[i], dir_endpoints(dir, ns[i].recipient), t, j)
}

/// When notification `i` contributes no source pair, the run-level
/// claimed-key and task-image predicates at bound `i + 1` coincide with those
/// at bound `i`.
proof fn lemma_run_skip(
    ns: Seq<Notification>,
    dir: Seq<DirectoryEntry>,
    s0: StateStore,
    now: u64,
    lease: u64,
    i: int,
)
    requires
        forall|j: int| !run_source(ns, dir, s0, now, lease, i, j),
    ensures
        forall|k: AttemptKey| #[trigger] run_claimed_upto(ns, dir, s0, now, lease, i + 1, k)
            == run_claimed_upto(ns, dir, s0, now, lease, i, k),
        forall|t: SendTask| #[trigger] run_image_upto(ns, dir, s0, now, lease, i + 1, t)
            == run_image_upto(ns, dir, s0, now, lease, i, t),
{
    assert forall|k: AttemptKey| #[trigger] run_claimed_upto(ns, dir, s0, now, lease, i + 1, k)
        == run_claimed_upto(ns, dir, s0, now, lease, i, k) by {
        if run_claimed_upto(ns, dir, s0, now, lease, i + 1, k) {
            let (i2, j2) = choose|i2: int, j2: int| i2 < i + 1
                && run_source(ns, dir, s0, now, lease, i2, j2) && run_key(ns, dir, i2, j2) == k;
            assert(i2 < i);
            assert(run_claimed_upto(ns, dir, s0, now, lease, i, k));
        }
        if run_claimed_upto(ns, dir, s0, now, lease, i, k) {
            let (i2, j2) = choose|i2: int, j2: int| i2 < i
                && run_source(ns, dir, s0, now, lease, i2, j2) && run_key(ns, dir, i2, j2) == k;
            assert(i2 < i + 1 && run_source(ns, dir, s0, now, lease, i2, j2)
                && run_key(ns, dir, i2, j2) == k);
        }
    }
    assert forall|t: SendTask| #[trigger] run_image_upto(ns, dir, s0, now, lease, i + 1, t)
        == run_image_upto(ns, dir, s0, now, lease, i, t) by {
        if run_image_upto(ns, dir, s0, now, lease, i + 1, t) {
            let (i2, j2) = choose|i2: int, j2: int| i2 < i + 1
                && run_source(ns, dir, s0, now, lease, i2, j2)
                && task_from_ep(ns[i2], dir_endpoints(dir, ns[i2].recipient), t, j2);
            assert(i2 < i);
            assert(run_image_upto(ns, dir, s0, now, lease, i, t));
        }
        if run_image_upto(ns, dir, s0, now, lease, i, t) {
            let (i2, j2) = choose|i2: int, j2: int| i2 < i
                && run_source(ns, dir, s0, now, lease, i2, j2)
                && task_from_ep(ns[i2], dir_endpoints(dir, ns[i2].recipient), t, j2);
            assert(i2 < i + 1 && run_source(ns, dir, s0, now, lease, i2, j2)
                && task_from_ep(ns[i2], dir_endpoints(dir, ns[i2].recipient), t, j2));
        }
    }
}

/// While the first `ii` notifications were planned, no key of notification
/// `ii` was touched: every claimed key carries an earlier notification's id.
proof fn lemma_step_untouched(
    ns: Seq<Notification>,
    dir: Seq<DirectoryEntry>,
    s0: StateStore,
    si: StateStore,
    now: u64,
    lease: u64,
    ii: int,
    eps: Seq<ChannelEndpoint>,
)
    requires
        0 <= ii < ns.len(),
        unique_ids(ns),
        dir_endpoints(dir, ns[ii].recipient) == eps,
        forall|k: AttemptKey| #[trigger] si.lookup(k) == (if run_claimed_upto(
            ns, dir, s0, now, lease, ii, k) {
            Some(claimed_record(s0.lookup(k), now))
        } else {
            s0.lookup(k)
        }),
    ensures
        forall|k: AttemptKey| k.notification_id == ns[ii].id
            ==> #[trigger] si.lookup(k) == s0.lookup(k),
        forall|j: int| #[trigger] ep_source(ns[ii], eps, si, now, lease, j)
            == ep_source(ns[ii], eps, s0, now, lease, j),
        forall|k: AttemptKey| #[trigger] claimed_key_upto(ns[ii], eps, si, now, lease,
            eps.len() as int, k)
            == claimed_key_upto(ns[ii], eps, s0, now, lease, eps.len() as int, k),
{
    assert forall|k: AttemptKey| k.notification_id == ns[ii].id
        implies #[trigger] si.lookup(k) == s0.lookup(k) by {
        if run_claimed_upto(ns, dir, s0, now, lease, ii, k) {
            let (i2, j2) = choose|i2: int, j2: int| i2 < ii
                && run_source(ns, dir, s0, now, lease, i2, j2)
                && run_key(ns, dir, i2, j2) == k;
            assert(k.notification_id == ns[i2].id);
            assert(ns[i2].id != ns[ii].id);
            assert(false);
        }
    }
    assert forall|j: int| #[trigger] ep_source(ns[ii], eps, si, now, lease, j)
        == ep_source(ns[ii], eps, s0, now, lease, j) by {
        if 0 <= j < eps.len() {
            let k = ep_key(ns[ii], eps, j);
            assert(k.notification_id == ns[ii].id);
            assert(si.lookup(k) == s0.lookup(k));
        }
    }
    assert forall|k: AttemptKey| #[trigger] claimed_key_upto(ns[ii], eps, si, now, lease,
        eps.len() as int, k)
        == claimed_key_upto(ns[ii], eps, s0, now, lease, eps.len() as int, k) by {
        if claimed_key_upto(ns[ii], eps, si, now, lease, eps.len() as int, k) {
            let j = choose|j: int| j < eps.len() && ep_source(ns[ii], eps, si, now, lease, j)
                && ep_key(ns[ii], eps, j) == k;
            assert(ep_source(ns[ii], eps, s0, now, lease, j));
            assert(claimed_key_upto(ns[ii], eps, s0, now, lease, eps.len() as int, k));
        }
        if claimed_key_upto(ns[ii], eps, s0, now, lease, eps.len() as int, k) {
            let j = choose|j: int| j < eps.len() && ep_source(ns[ii], eps, s0, now, lease, j)
                && ep_key(ns[ii], eps, j) == k;
            assert(ep_source(ns[ii], eps, si, now, lease, j));
            assert(claimed_key_upto(ns[ii], eps, si, now, lease, eps.len() as int, k));
        }
    }
}

/// Planning notification `ii` moves the store from "claims of the first `ii`
/// notifications" to "claims of the first `ii + 1`".
proof fn lemma_step_store(
    ns: Seq<Notification>,
    dir: Seq<DirectoryEntry>,
    s0: StateStore,
    si: StateStore,
    s2: StateStore,
    now: u64,
    lease: u64,
    ii: int,
    eps: Seq<ChannelEndpoint>,
)
    requires
        0 <= ii < ns.len(),
        unique_ids(ns),
        dir_endpoints(dir, ns[ii].recipient) == eps,
        forall|k: AttemptKey| #[trigger] si.lookup(k) == (if run_claimed_upto(
            ns, dir, s0, now, lease, ii, k) {
            Some(claimed_record(s0.lookup(k), now))
        } else {
            s0.lookup(k)
        }),
        forall|k: AttemptKey| #[trigger] s2.lookup(k) == (if claimed_key_upto(
            ns[ii], eps, si, now, lease, eps.len() as int, k) {
            Some(claimed_record(si.lookup(k), now))
        } else {
            si.lookup(k)
        }),
    ensures
        forall|k: AttemptKey| #[trigger] s2.lookup(k) == (if run_claimed_upto(
            ns, dir, s0, now, lease, ii + 1, k) {
            Some(claimed_record(s0.lookup(k), now))
        } else {
            s0.lookup(k)
        }),
{
    lemma_step_untouched(ns, dir, s0, si, now, lease, ii, eps);
    assert forall|k: AttemptKey| #[trigger] s2.lookup(k) == (if run_claimed_upto(
        ns, dir, s0, now, lease, ii + 1, k) {
        Some(claimed_record(s0.lookup(k), now))
    } else {
        s0.lookup(k)
    }) by {
        if claimed_key_upto(ns[ii], eps, s0, now, lease, eps.len() as int, k) {
            let j = choose|j: int| j < eps.len() && ep_source(ns[ii], eps, s0, now, lease, j)
                && ep_key(ns[ii], eps, j) == k;
            assert(k.notification_id == ns[ii].id);
            assert(si.lookup(k) == s0.lookup(k));
            assert(run_source(ns, dir, s0, now, lease, ii, j) && run_key(ns, dir, ii, j) == k);
            assert(run_claimed_upto(ns, dir, s0, now, lease, ii + 1, k));
        } else {
            assert(s2.lookup(k) == si.lookup(k));
            if run_claimed_upto(ns, dir, s0, now, lease, ii + 1, k) {
                let (i2, j2) = choose|i2: int, j2: int| i2 < ii + 1
                    && run_source(ns, dir, s0, now, lease, i2, j2)
                    && run_key(ns, dir, i2, j2) == k;
                if i2 == ii {
                    assert(ep_source(ns[ii], eps, s0, now, lease, j2)
                        && ep_key(ns[ii], eps, j2) == k);
                    assert(claimed_key_upto(ns[ii], eps, s0, now, lease, eps.len() as int, k));
                    assert(false);
                } else {
                    assert(run_claimed_upto(ns, dir, s0, now, lease, ii, k));
                }
            } else {
                if run_claimed_upto(ns, dir, s0, now, lease, ii, k) {
                    let (i2, j2) = choose|i2: int, j2: int| i2 < ii
                        && run_source(ns, dir, s0, now, lease, i2, j2)
                        && run_key(ns, dir, i2, j2) == k;
                    assert(i2 < ii + 1);
                    assert(false);
                }
            }
        }
    }
}

/// Old tasks keep their run-level image and the tasks appended for
/// notification `ii` gain one.
proof fn lemma_step_images(
    ns: Seq<Notification>,
    dir: Seq<DirectoryEntry>,
    s0: StateStore,
    si: StateStore,
    now: u64,
    lease: u64,
    ii: int,
    eps: Seq<ChannelEndpoint>,
    pre_tasks: Seq<SendTask>,
    cur_tasks: Seq<SendTask>,
)
    requires
        0 <= ii < ns.len(),
        dir_endpoints(dir, ns[ii].recipient) == eps,
        cur_tasks.len() >= pre_tasks.len(),
        forall|t: int| 0 <= t < pre_tasks.len() ==> cur_tasks[t] == pre_tasks[t],
        forall|t: int| 0 <= t < pre_tasks.len() ==> run_image_upto(
            ns, dir, s0, now, lease, ii, pre_tasks[t]),
        forall|t: int| pre_tasks.len() <= t < cur_tasks.len() ==> task_image_upto(
            ns[ii], eps, si, now, lease, eps.len() as int, cur_tasks[t]),
        forall|j: int| #[trigger] ep_source(ns[ii], eps, si, now, lease, j)
            == ep_source(ns[ii], eps, s0, now, lease, j),
    ensures
        forall|t: int| 0 <= t < cur_tasks.len() ==> run_image_upto(
            ns, dir, s0, now, lease, ii + 1, cur_tasks[t]),
{
    let p0 = pre_tasks.len() as int;
    assert forall|t: int| 0 <= t < cur_tasks.len() implies run_image_upto(
        ns, dir, s0, now, lease, ii + 1, cur_tasks[t]) by {
        if t < p0 {
            assert(cur_tasks[t] == pre_tasks[t]);
            let (i2, j2) = choose|i2: int, j2: int| i2 < ii
                && run_source(ns, dir, s0, now, lease, i2, j2)
                && task_from_ep(ns[i2], dir_endpoints(dir, ns[i2].recipient), pre_tasks[t], j2);
            assert(i2 < ii + 1 && run_source(ns, dir, s0, now, lease, i2, j2)
                && task_from_ep(ns[i2], dir_endpoints(dir, ns[i2].recipient), cur_tasks[t], j2));
        } else {
            let j = choose|j: int| j < eps.len() && ep_source(ns[ii], eps, si, now, lease, j)
                && task_from_ep(ns[ii], eps, cur_tasks[t], j);
            assert(ep_source(ns[ii], eps, s0, now, lease, j));
            assert(run_source(ns, dir, s0, now, lease, ii, j)
                && task_from_ep(ns[ii], dir_endpoints(dir, ns[ii].recipient), cur_tasks[t], j));
        }
    }
}

/// Every source pair of the first `ii + 1` notifications has a task after
/// notification `ii` was planned.
proof fn lemma_step_complete(
    ns: Seq<Notification>,
    dir: Seq<DirectoryEntry>,
    s0: StateStore,
    si: StateStore,
    now: u64,
    lease: u64,
    ii: int,
    eps: Seq<ChannelEndpoint>,
    pre_tasks: Seq<SendTask>,
    cur_tasks: Seq<SendTask>,
)
    requires
        0 <= ii < ns.len(),
        dir_endpoints(dir, ns[ii].recipient) == eps,
        cur_tasks.len() >= pre_tasks.len(),
        forall|t: int| 0 <= t < pre_tasks.len() ==> cur_tasks[t] == pre_tasks[t],
        forall|i2: int, j2: int| i2 < ii && #[trigger] run_source(ns, dir, s0, now, lease, i2, j2)
            ==> exists|t: int| 0 <= t < pre_tasks.len()
                && pre_tasks[t].key == run_key(ns, dir, i2, j2),
        forall|j: int| #[trigger] ep_source(ns[ii], eps, si, now, lease, j) ==> exists|t: int|
            pre_tasks.len() <= t < cur_tasks.len() && cur_tasks[t].key == ep_key(ns[ii], eps, j),
        forall|j: int| #[trigger] ep_source(ns[ii], eps, si, now, lease, j)
            == ep_source(ns[ii], eps, s0, now, lease, j),
    ensures
        forall|i2: int, j2: int| i2 < ii + 1
            && #[trigger] run_source(ns, dir, s0, now, lease, i2, j2)
            ==> exists|t: int| 0 <= t < cur_tasks.len()
                && cur_tasks[t].key == run_key(ns, dir, i2, j2),
{
    assert forall|i2: int, j2: int| i2 < ii + 1
        && #[trigger] run_source(ns, dir, s0, now, lease, i2, j2)
        implies exists|t: int| 0 <= t < cur_tasks.len()
            && cur_tasks[t].key == run_key(ns, dir, i2, j2) by {
        if i2 == ii {
            assert(ep_source(ns[ii], eps, si, now, lease, j2));
            let t = choose|t: int| pre_tasks.len() <= t < cur_tasks.len()
                && cur_tasks[t].key == ep_key(ns[ii], eps, j2);
            assert(0 <= t < cur_tasks.len() && cur_tasks[t].key == run_key(ns, dir, i2, j2));
        } else {
            let t = choose|t: int| 0 <= t < pre_tasks.len()
                && pre_tasks[t].key == run_key(ns, dir, i2, j2);
            assert(cur_tasks[t] == pre_tasks[t]);
            assert(0 <= t < cur_tasks.len() && cur_tasks[t].key == run_key(ns, dir, i2, j2));
        }
    }
}

/// Task keys stay pairwise distinct: the new tasks carry notification `ii`'s
/// id, which no earlier task key carries, and are distinct among themselves.
proof fn lemma_step_distinct(
    ns: Seq<Notification>,
    dir: Seq<DirectoryEntry>,
    s0: StateStore,
    now: u64,
    lease: u64,
    ii: int,
    pre_tasks: Seq<SendTask>,
    cur_tasks: Seq<SendTask>,
)
    requires
        0 <= ii < ns.len(),
        unique_ids(ns),
        cur_tasks.len() >= pre_tasks.len(),
        forall|t: int| 0 <= t < pre_tasks.len() ==> cur_tasks[t] == pre_tasks[t],
        forall|t: int| 0 <= t < pre_tasks.len() ==> run_image_upto(
            ns, dir, s0, now, lease, ii, pre_tasks[t]),
        forall|t1: int, t2: int| 0 <= t1 < t2 < pre_tasks.len()
            ==> pre_tasks[t1].key != pre_tasks[t2].key,
        forall|t1: int, t2: int| pre_tasks.len() <= t1 < t2 < cur_tasks.len()
            ==> cur_tasks[t1].key != cur_tasks[t2].key,
        forall|t: int| pre_tasks.len() <= t < cur_tasks.len()
            ==> (#[trigger] cur_tasks[t].key).notification_id == ns[ii].id,
    ensures
        forall|t1: int, t2: int| 0 <= t1 < t2 < cur_tasks.len()
            ==> cur_tasks[t1].key != cur_tasks[t2].key,
{
    let p0 = pre_tasks.len() as int;
    assert forall|t1: int, t2: int| 0 <= t1 < t2 < cur_tasks.len()
        implies cur_tasks[t1].key != cur_tasks[t2].key by {
        if t2 < p0 {
            assert(cur_tasks[t1] == pre_tasks[t1]);
            assert(cur_tasks[t2] == pre_tasks[t2]);
        } else if t1 >= p0 {
        } else {
            assert(cur_tasks[t1] == pre_tasks[t1]);
            let (i2, j2) = choose|i2: int, j2: int| i2 < ii
                && run_source(ns, dir, s0, now, lease, i2, j2)
                && task_from_ep(ns[i2], dir_endpoints(dir, ns[i2].recipient), pre_tasks[t1], j2);
            assert(cur_tasks[t1].key.notification_id == ns[i2].id);
            assert(cur_tasks[t2].key.notification_id == ns[ii].id);
            assert(ns[i2].id != ns[ii].id);
        }
    }
}

/// Plans one dispatch run over a snapshot of fetched notifications: resolves
/// each recipient's endpoints in the directory snapshot, claims every enabled
/// endpoint's key that the dedup store shows claimable (not Delivered, not
/// under a live claim), and returns one send task per claim. The store
/// changes at exactly the claimed keys; task keys are pairwise distinct; every
/// claimable enabled (notification, channel) pair is claimed and every task
/// stems from one such pair.
#[verifier::rlimit(50)]
pub fn plan_run(
    notifs: &Vec<Notification>,
    dir: &Vec<DirectoryEntry>,
    store: &mut StateStore,
    now: u64,
    lease: u64,
) -> (tasks: Vec<SendTask>)
    requires
        unique_ids(notifs@),
        dir_wf(dir@),
    ensures
        // The store changes at exactly the claimed keys.
        forall|k: AttemptKey| final(store).lookup(k) == (if run_claimed_upto(
            notifs@, dir@, *old(store), now, lease, notifs@.len() as int, k) {
            Some(claimed_record(old(store).lookup(k), now))
        } else {
            old(store).lookup(k)
        }),
        // Every task is the image of one claimable enabled pair.
        forall|t: int| 0 <= t < tasks@.len() ==> run_image_upto(
            notifs@, dir@, *old(store), now, lease, notifs@.len() as int, tasks@[t]),
        // Every claimable enabled pair got a task.
        forall|i: int, j: int| #[trigger] run_source(notifs@, dir@, *old(store), now, lease, i, j)
            ==> exists|t: int| 0 <= t < tasks@.len() && tasks@[t].key == run_key(notifs@, dir@, i, j),
        // Task keys are pairwise distinct.
        forall|t1: int, t2: int| 0 <= t1 < t2 < tasks@.len() ==> tasks@[t1].key != tasks@[t2].key,
        // Each task's key now holds the claimed (Pending) record.
        forall|t: int| 0 <= t < tasks@.len() ==> final(store).lookup(#[trigger] tasks@[t].key)
            == Some(claimed_record(old(store).lookup(tasks@[t].key), now)),
{
    let ghost s0 = *store;
    let nlen = notifs.len();
    let mut tasks: Vec<SendTask> = Vec::new();
    let mut i: usize = 0;
    while i < nlen
        invariant
            i <= nlen,
            nlen == notifs@.len(),
            unique_ids(notifs@),
            dir_wf(dir@),
            forall|k: AttemptKey| #[trigger] store.lookup(k) == (if run_claimed_upto(
                notifs@, dir@, s0, now, lease, i as int, k) {
                Some(claimed_record(s0.lookup(k), now))
            } else {
                s0.lookup(k)
            }),
            forall|t: int| 0 <= t < tasks@.len() ==> run_image_upto(
                notifs@, dir@, s0, now, lease, i as int, tasks@[t]),
            forall|i2: int, j2: int| i2 < i
                && #[trigger] run_source(notifs@, dir@, s0, now, lease, i2, j2)
                ==> exists|t: int| 0 <= t < tasks@.len()
                    && tasks@[t].key == run_key(notifs@, dir@, i2, j2),
            forall|t1: int, t2: int| 0 <= t1 < t2 < tasks@.len()
                ==> tasks@[t1].key != tasks@[t2].key,
        decreases nlen - i,
    {
        let ghost ii = i as int;
        let n = &notifs[i];
        match find_recipient(dir, n.recipient) {
            None => {
                proof {
                    // No directory entry: zero endpoints, so no source pair.
                    assert forall|j: int| !run_source(notifs@, dir@, s0, now, lease, ii, j) by {
                        assert(dir_endpoints(dir@, notifs@[ii].recipient).len() == 0);
                    }
                    lemma_run_skip(notifs@, dir@, s0, now, lease, ii);
                }
            },
            Some(di) => {
                let ghost si = *store;
                let ghost eps = dir@[di as int].endpoints@;
                proof {
                    assert(eps_wf(eps));
                    lemma_step_untouched(notifs@, dir@, s0, si, now, lease, ii, eps);
                }
                let ghost pre_tasks = tasks@;
                plan_notification(n, &dir[di].endpoints, store, now, lease, &mut tasks);
                proof {
                    lemma_step_store(notifs@, dir@, s0, si, *store, now, lease, ii, eps);
                    lemma_step_images(notifs@, dir@, s0, si, now, lease, ii, eps, pre_tasks, tasks@);
                    lemma_step_complete(notifs@, dir@, s0, si, now, lease, ii, eps, pre_tasks, tasks@);
                    lemma_step_distinct(notifs@, dir@, s0, now, lease, ii, pre_tasks, tasks@);
                }
            },
        }
        i += 1;
    }
    proof {
        // Each task key holds the claimed record in the final store.
        assert forall|t: int| 0 <= t < tasks@.len() implies store.lookup(#[trigger] tasks@[t].key)
            == Some(claimed_record(s0.lookup(tasks@[t].key), now)) by {
            let (i2, j2) = choose|i2: int, j2: int| i2 < nlen
                && run_source(notifs@, dir@, s0, now, lease, i2, j2)
                && task_from_ep(notifs@[i2],
                    dir_endpoints(dir@, notifs@[i2].recipient), tasks@[t], j2);
            assert(run_claimed_upto(notifs@, dir@, s0, now, lease, nlen as int, tasks@[t].key));
        }
    }
    tasks
}

/// Some task in `ts` carries key `k`.
pub open spec fn has_task_key(ts: Seq<SendTask>, k: AttemptKey) -> bool {
    exists|t: int| 0 <= t < ts.len() && (#[trigger] ts[t]).key == k
}

/// Writes each attempt's result back to the dedup store: task `t` delivered
/// iff `results[t]`. Every task key must still hold its claim (the claim
/// happens-before the record write) and keys must be pairwise distinct, as
/// `plan_run` guarantees. Keys outside the task list are untouched.
#[verifier::loop_isolation(false)]
pub fn record_results(tasks: &Vec<SendTask>, results: &Vec<bool>, store: &mut StateStore)
    requires
        results@.len() == tasks@.len(),
        forall|t1: int, t2: int| 0 <= t1 < t2 < tasks@.len()
            ==> tasks@[t1].key != tasks@[t2].key,
        forall|t: int| 0 <= t < tasks@.len()
            ==> ((#[trigger] old(store).lookup(tasks@[t].key)) matches Some(r)
                && r.status == AttemptStatus::Pending),
    ensures
        forall|t: int| 0 <= t < tasks@.len() ==> final(store).lookup((#[trigger] tasks@[t]).key)
            == Some(recorded(old(store).lookup(tasks@[t].key)->Some_0, results@[t])),
        forall|k: AttemptKey| !has_task_key(tasks@, k)
            ==> final(store).lookup(k) == old(store).lookup(k),
{
    let n = tasks.len();
    let mut i: usize = 0;
    while i < n
        invariant
            i <= n,
            forall|t: int| 0 <= t < i ==> store.lookup((#[trigger] tasks@[t]).key)
                == Some(recorded(old(store).lookup(tasks@[t].key)->Some_0, results@[t])),
            forall|t: int| i <= t < n ==> store.lookup((#[trigger] tasks@[t]).key)
                == old(store).lookup(tasks@[t].key),
            forall|k: AttemptKey| !has_task_key(tasks@, k)
                ==> store.lookup(k) == old(store).lookup(k),
        decreases n - i,
    {
        let k = tasks[i].key;
        proof {
            assert(store.lookup(k) == old(store).lookup(k));
        }
        store.record_result(k, results[i]);
        proof {
            assert forall|t: int| i + 1 <= t < n implies store.lookup((#[trigger] tasks@[t]).key)
                == old(store).lookup(tasks@[t].key) by {
                assert(tasks@[t].key != k);
            }
            assert forall|k2: AttemptKey| !has_task_key(tasks@, k2)
                implies store.lookup(k2) == old(store).lookup(k2) by {
                assert(tasks@[i as int].key == k);
                assert(k2 != k);
            }
        }
        i += 1;
    }
}

/// The recipient has at least one enabled endpoint.
pub open spec fn has_enabled(eps: Seq<ChannelEndpoint>) -> bool {
    exists|j: int| 0 <= j < eps.len() && (#[trigger] eps[j]).enabled
}

/// The store shows notification `n` Delivered on channel `kind`.
pub open spec fn channel_delivered(s: StateStore, n: Notification, kind: ChannelKind) -> bool {
    s.lookup(key_of(n, kind)) matches Some(r) && r.status == AttemptStatus::Delivered
}

/// Every enabled endpoint's channel shows Delivered.
pub open spec fn all_enabled_delivered(s: StateStore, n: Notification, eps: Seq<ChannelEndpoint>) -> bool {
    forall|j: int| 0 <= j < eps.len() && (#[trigger] eps[j]).enabled
        ==> channel_delivered(s, n, eps[j].kind)
}

/// At least one enabled endpoint's channel shows Delivered.
pub open spec fn some_enabled_delivered(s: StateStore, n: Notification, eps: Seq<ChannelEndpoint>) -> bool {
    exists|j: int| 0 <= j < eps.len() && (#[trigger] eps[j]).enabled
        && channel_delivered(s, n, eps[j].kind)
}

/// The aggregated outcome of one notification over its recipient's endpoints:
/// no enabled channel means Undeliverable; otherwise FullyDelivered when every
/// enabled channel is Delivered, PartiallyDelivered when only some are, and
/// Pending when none is.
pub open spec fn outcome_of(s: StateStore, n: Notification, eps: Seq<ChannelEndpoint>) -> NotificationOutcome {
    if !has_enabled(eps) {
        NotificationOutcome::Undeliverable
    } else if all_enabled_delivered(s, n, eps) {
        NotificationOutcome::FullyDelivered
    } else if some_enabled_delivered(s, n, eps) {
        NotificationOutcome::PartiallyDelivered
    } else {
        NotificationOutcome::Pending
    }
}

/// Aggregates one notification's outcome from the store's attempt records.
#[verifier::loop_isolation(false)]
fn outcome_for(store: &StateStore, n: &Notification, eps: &Vec<ChannelEndpoint>) -> (o: NotificationOutcome)
    ensures
        o == outcome_of(*store, *n, eps@),
{
    let m = eps.len();
    let mut any_enabled = false;
    let mut all_del = true;
    let mut any_del = false;
    let mut j: usize = 0;
    while j < m
        invariant
            j <= m,
            any_enabled == exists|j2: int| 0 <= j2 < j && (#[trigger] eps@[j2]).enabled,
            all_del == forall|j2: int| 0 <= j2 < j && (#[trigger] eps@[j2]).enabled
                ==> channel_delivered(*store, *n, eps@[j2].kind),
            any_del == exists|j2: int| 0 <= j2 < j && (#[trigger] eps@[j2]).enabled
                && channel_delivered(*store, *n, eps@[j2].kind),
        decreases m - j,
    {
        let ghost jj = j as int;
        let e = &eps[j];
        if e.enabled {
            let delivered = match store.get(make_key(n, e.kind)) {
                Some(rec) => match rec.status {
                    AttemptStatus::Delivered => true,
                    _ => false,
                },
                None => false,
            };
            proof {
                assert(delivered == channel_delivered(*store, *n, eps@[jj].kind));
            }
            any_enabled = true;
            if delivered {
                any_del = true;
            } else {
                all_del = false;
            }
        }
        j += 1;
    }
    if !any_enabled {
        NotificationOutcome::Undeliverable
    } else if all_del {
        NotificationOutcome::FullyDelivered
    } else if any_del {
        NotificationOutcome::PartiallyDelivered
    } else {
        NotificationOutcome::Pending
    }
}

/// Builds the dispatch report: one entry per fetched notification, in fetch
/// order, carrying the outcome aggregated from the store. No notification is
/// dropped: entry `i` reports notification `i`.
#[verifier::loop_isolation(false)]
pub fn build_report(
    notifs: &Vec<Notification>,
    dir: &Vec<DirectoryEntry>,
    store: &StateStore,
) -> (rep: DispatchReport)
    ensures
        rep.entries@.len() == notifs@.len(),
        forall|i: int| 0 <= i < notifs@.len() ==> (#[trigger] rep.entries@[i]).id == notifs@[i].id
            && rep.entries@[i].outcome == outcome_of(
                *store, notifs@[i], dir_endpoints(dir@, notifs@[i].recipient)),
{
    let nlen = notifs.len();
    let mut entries: Vec<ReportEntry> = Vec::new();
    let mut i: usize = 0;
    while i < nlen
        invariant
            i <= nlen,
            entries@.len() == i,
            forall|i2: int| 0 <= i2 < i ==> (#[trigger] entries@[i2]).id == notifs@[i2].id
                && entries@[i2].outcome == outcome_of(
                    *store, notifs@[i2], dir_endpoints(dir@, notifs@[i2].recipient)),
        decreases nlen - i,
    {
        let n = &notifs[i];
        let outcome = match find_recipient(dir, n.recipient) {
            Some(di) => outcome_for(store, n, &dir[di].endpoints),
            None => {
                proof {
                    assert(!has_enabled(dir_endpoints(dir@, notifs@[i as int].recipient)));
                }
                NotificationOutcome::Undeliverable
            },
        };
        entries.push(ReportEntry { id: n.id, outcome });
        i += 1;
    }
    DispatchReport { entries }
}

/// Runs the fetch-gated front half of a dispatch run. A fetch failure is
/// fatal: the run aborts before any delivery attempt, the store is untouched
/// and the error is surfaced. On a successful fetch the run plans and claims
/// as `plan_run` does, handing back the snapshot and the claimed send tasks.
pub fn dispatch_prepare(
    fetched: Result<Vec<Notification>, FetchError>,
    dir: &Vec<DirectoryEntry>,
    store: &mut StateStore,
    now: u64,
    lease: u64,
) -> (r: Result<(Vec<Notification>, Vec<SendTask>), FetchError>)
    requires
        fetched matches Ok(ns) ==> unique_ids(ns@) && dir_wf(dir@),
    ensures
        fetched matches Err(e) ==> r == Err::<(Vec<Notification>, Vec<SendTask>), FetchError>(e)
            && *final(store) == *old(store),
        fetched matches Ok(ns) ==> (r matches Ok(p) && p.0 == ns && {
            let tasks = p.1;
            &&& forall|k: AttemptKey| final(store).lookup(k) == (if run_claimed_upto(
                ns@, dir@, *old(store), now, lease, ns@.len() as int, k) {
                Some(claimed_record(old(store).lookup(k), now))
            } else {
                old(store).lookup(k)
            })
            &&& forall|t: int| 0 <= t < tasks@.len() ==> run_image_upto(
                ns@, dir@, *old(store), now, lease, ns@.len() as int, tasks@[t])
            &&& forall|i: int, j: int| #[trigger] run_source(ns@, dir@, *old(store), now, lease, i, j)
                ==> exists|t: int| 0 <= t < tasks@.len()
                    && tasks@[t].key == run_key(ns@, dir@, i, j)
            &&& forall|t1: int, t2: int| 0 <= t1 < t2 < tasks@.len()
                ==> tasks@[t1].key != tasks@[t2].key
            &&& forall|t: int| 0 <= t < tasks@.len()
                ==> final(store).lookup((#[trigger] tasks@[t]).key)
                    == Some(claimed_record(old(store).lookup(tasks@[t].key), now))
        }),
{
    match fetched {
        Err(e) => Err(e),
        Ok(ns) => {
            let tasks = plan_run(&ns, dir, store, now, lease);
            Ok((ns, tasks))
        },
    }
}

/// Runs the back half of a dispatch run once the delivery channels have
/// reported: records each task's result in the store, then aggregates the
/// per-notification outcome into the report. Every fetched notification
/// appears exactly once, at its fetch position.
pub fn dispatch_complete(
    notifs: &Vec<Notification>,
    dir: &Vec<DirectoryEntry>,
    tasks: &Vec<SendTask>,
    results: &Vec<bool>,
    store: &mut StateStore,
) -> (rep: DispatchReport)
    requires
        results@.len() == tasks@.len(),
        forall|t1: int, t2: int| 0 <= t1 < t2 < tasks@.len()
            ==> tasks@[t1].key != tasks@[t2].key,
        forall|t: int| 0 <= t < tasks@.len()
            ==> ((#[trigger] old(store).lookup(tasks@[t].key)) matches Some(r)
                && r.status == AttemptStatus::Pending),
    ensures
        forall|t: int| 0 <= t < tasks@.len() ==> final(store).lookup((#[trigger] tasks@[t]).key)
            == Some(recorded(old(store).lookup(tasks@[t].key)->Some_0, results@[t])),
        forall|k: AttemptKey| !has_task_key(tasks@, k)
            ==> final(store).lookup(k) == old(store).lookup(k),
        rep.entries@.len() == notifs@.len(),
        forall|i: int| 0 <= i < notifs@.len() ==> (#[trigger] rep.entries@[i]).id == notifs@[i].id
            && rep.entries@[i].outcome == outcome_of(
                *final(store), notifs@[i], dir_endpoints(dir@, notifs@[i].recipient)),
{
    record_results(tasks, results, store);
    build_report(notifs, dir, store)
}

} // verus!
