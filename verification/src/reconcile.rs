//! The reconciler: decides which notifications are safe to remove from the
//! ledger. Only a FullyDelivered outcome ever yields a removal; everything
//! else stays on the ledger for a later run. Removal results are folded into
//! a removal report; a failed removal is retried on a later run and never
//! rolls back a recorded delivery.
use vstd::prelude::*;

use crate::model::{DispatchReport, NotificationOutcome, RemovalReport, ReportEntry};

verus! {

/// The ids the reconciler removes: those of the FullyDelivered entries, in
/// report order.
pub open spec fn removable_ids(entries: Seq<ReportEntry>) -> Seq<u64>
    decreases entries.len(),
{
    if entries.len() == 0 {
        Seq::empty()
    } else if entries.last().outcome == NotificationOutcome::FullyDelivered {
        removable_ids(entries.drop_last()).push(entries.last().id)
    } else {
        removable_ids(entries.drop_last())
    }
}

/// Selects the ids of the FullyDelivered entries of a dispatch report: exactly
/// those notifications may be removed from the ledger. All other outcomes
/// leave the notification in place for a later run.
#[verifier::loop_isolation(false)]
pub fn reconcile(report: &DispatchReport) -> (ids: Vec<u64>)
    ensures
        ids@ == removable_ids(report.entries@),
{
    let n = report.entries.len();
    let mut ids: Vec<u64> = Vec::new();
    let mut i: usize = 0;
    while i < n
        invariant
            i <= n,
            ids@ == removable_ids(report.entries@.take(i as int)),
        decreases n - i,
    {
        let e = &report.entries[i];
        proof {
            let pre = report.entries@.take(i as int);
            let cur = report.entries@.take(i + 1);
            assert(cur.drop_last() =~= pre);
            assert(cur.last() == report.entries@[i as int]);
        }
        match e.outcome {
            NotificationOutcome::FullyDelivered => {
                ids.push(e.id);
            },
            _ => {},
        }
        i += 1;
    }
    proof {
        assert(report.entries@.take(n as int) =~= report.entries@);
    }
    ids
}

/// The entries of `ids` at the positions where `ack` holds `want`, in order.
pub open spec fn selected_ids(ids: Seq<u64>, ack: Seq<bool>, want: bool) -> Seq<u64>
    decreases ids.len(),
{
    if ids.len() == 0 || ack.len() != ids.len() {
        Seq::empty()
    } else if ack.last() == want {
        selected_ids(ids.drop_last(), ack.drop_last(), want).push(ids.last())
    } else {
        selected_ids(ids.drop_last(), ack.drop_last(), want)
    }
}

/// Splits the removal ids by the ledger's per-id acknowledgement: `ack[t]`
/// says whether the ledger confirmed removing `ids[t]` (removing an id that
/// is already absent counts as confirmed — removal is idempotent by id).
/// Failed ids stay on the ledger and are retried on a later run.
#[verifier::loop_isolation(false)]
pub fn removal_report(ids: &Vec<u64>, ack: &Vec<bool>) -> (rep: RemovalReport)
    requires
        ack@.len() == ids@.len(),
    ensures
        rep.removed@ == selected_ids(ids@, ack@, true),
        rep.failed@ == selected_ids(ids@, ack@, false),
{
    let n = ids.len();
    let mut removed: Vec<u64> = Vec::new();
    let mut failed: Vec<u64> = Vec::new();
    let mut i: usize = 0;
    while i < n
        invariant
            i <= n,
            removed@ == selected_ids(ids@.take(i as int), ack@.take(i as int), true),
            failed@ == selected_ids(ids@.take(i as int), ack@.take(i as int), false),
        decreases n - i,
    {
        proof {
            let pi = ids@.take(i as int);
            let pa = ack@.take(i as int);
            let ci = ids@.take(i + 1);
            let ca = ack@.take(i + 1);
            assert(ci.drop_last() =~= pi);
            assert(ca.drop_last() =~= pa);
            assert(ci.last() == ids@[i as int]);
            assert(ca.last() == ack@[i as int]);
        }
        if ack[i] {
            removed.push(ids[i]);
        } else {
            failed.push(ids[i]);
        }
        i += 1;
    }
    proof {
        assert(ids@.take(n as int) =~= ids@);
        assert(ack@.take(n as int) =~= ack@);
    }
    RemovalReport { removed, failed }
}

} // verus!
