//! The dedup/state store: the persistent record of which (notification,
//! recipient, channel) keys have been attempted or delivered. Its atomic
//! claim/record operations are the sole serialization point of the system:
//! they are what keeps overlapping runs from sending the same message twice.
use vstd::prelude::*;

use crate::model::{AttemptKey, AttemptStatus, DeliveryAttemptRecord};

verus! {

/// Looks a key up in an association list, first match wins.
pub open spec fn assoc_find(
    s: Seq<(AttemptKey, DeliveryAttemptRecord)>,
    k: AttemptKey,
) -> Option<DeliveryAttemptRecord>
    decreases s.len(),
{
    if s.len() == 0 {
        None
    } else if s[0].0 == k {
        Some(s[0].1)
    } else {
        assoc_find(s.drop_first(), k)
    }
}

/// The next attempt count after one more claim; the count never wraps, it
/// saturates at the largest representable value (and so never decreases).
pub open spec fn bump(c: u64) -> u64 {
    if c == u64::MAX {
        c
    } else {
        (c + 1) as u64
    }
}

/// The record a key holds right after a successful claim at time `now`:
/// in-flight (Pending), with one more attempt counted.
pub open spec fn claimed_record(prev: Option<DeliveryAttemptRecord>, now: u64) -> DeliveryAttemptRecord {
    match prev {
        None => DeliveryAttemptRecord { status: AttemptStatus::Pending, attempt_count: 1, last_attempt: now },
        Some(r) => DeliveryAttemptRecord {
            status: AttemptStatus::Pending,
            attempt_count: bump(r.attempt_count),
            last_attempt: now,
        },
    }
}

/// The record a key holds after its in-flight attempt reports back.
pub open spec fn recorded(prev: DeliveryAttemptRecord, delivered: bool) -> DeliveryAttemptRecord {
    DeliveryAttemptRecord {
        status: if delivered {
            AttemptStatus::Delivered
        } else {
            AttemptStatus::Failed
        },
        attempt_count: prev.attempt_count,
        last_attempt: prev.last_attempt,
    }
}

/// The dedup/state store. Keys map to at most one record; a missing key means
/// the pair has never been attempted.
pub struct StateStore {
    entries: Vec<(AttemptKey, DeliveryAttemptRecord)>,
}

impl StateStore {
    /// The record currently held for a key, if any.
    pub closed spec fn lookup(self, k: AttemptKey) -> Option<DeliveryAttemptRecord> {
        assoc_find(self.entries@, k)
    }

    /// Whether a claim taken at time `now` with lease length `lease` would
    /// succeed: the key was never attempted, or its last attempt failed, or a
    /// previous claim is stale (its lease expired and the worker never
    /// reported back). A Delivered key is never claimable again, and a live
    /// Pending claim excludes every other worker.
    pub open spec fn claimable(self, k: AttemptKey, now: u64, lease: u64) -> bool {
        match self.lookup(k) {
            None => true,
            Some(r) => match r.status {
                AttemptStatus::Failed => true,
                AttemptStatus::Delivered => false,
                AttemptStatus::Pending => r.last_attempt + lease <= now,
            },
        }
    }

    /// An empty store: no key has ever been attempted.
    pub fn new() -> (s: StateStore)
        ensures
            forall|k: AttemptKey| s.lookup(k) == None::<DeliveryAttemptRecord>,
    {
        let s = StateStore { entries: Vec::new() };
        proof {
            assert forall|k: AttemptKey| s.lookup(k) == None::<DeliveryAttemptRecord> by {
                assert(s.entries@.len() == 0);
            }
        }
        s
    }

    /// Index of the first entry holding `k`, if any.
    fn find_index(&self, k: AttemptKey) -> (r: Option<usize>)
        ensures
            match r {
                Some(i) => i < self.entries@.len() && self.entries@[i as int].0 == k
                    && (forall|j: int| 0 <= j < i ==> self.entries@[j].0 != k)
                    && self.lookup(k) == Some(self.entries@[i as int].1),
                None => self.lookup(k) == None::<DeliveryAttemptRecord>,
            },
    {
        let n = self.entries.len();
        let mut i: usize = 0;
        while i < n
            invariant
                n == self.entries@.len(),
                i <= n,
                forall|j: int| 0 <= j < i ==> self.entries@[j].0 != k,
            decreases n - i,
        {
            if self.entries[i].0 == k {
                proof {
                    lemma_assoc_find_first(self.entries@, k, i as int);
                }
                return Some(i);
            }
            i += 1;
        }
        proof {
            lemma_assoc_find_none(self.entries@, k);
        }
        None
    }

    /// Reads the record for one key.
    pub fn get(&self, k: AttemptKey) -> (r: Option<DeliveryAttemptRecord>)
        ensures
            r == self.lookup(k),
    {
        match self.find_index(k) {
            Some(i) => Some(self.entries[i].1),
            None => None,
        }
    }

    /// Atomically claims a key for one delivery attempt. Succeeds exactly when
    /// the key is claimable at `now`: never attempted, last attempt Failed, or
    /// a stale Pending claim whose lease expired. On success the key becomes
    /// Pending with one more attempt counted; on failure nothing changes. No
    /// other key is ever touched, which is what makes concurrent claims on
    /// distinct keys independent.
    pub fn try_claim(&mut self, k: AttemptKey, now: u64, lease: u64) -> (r: bool)
        ensures
            r == old(self).claimable(k, now, lease),
            r ==> final(self).lookup(k) == Some(claimed_record(old(self).lookup(k), now)),
            !r ==> final(self).lookup(k) == old(self).lookup(k),
            forall|k2: AttemptKey| k2 != k ==> final(self).lookup(k2) == old(self).lookup(k2),
    {
        match self.find_index(k) {
            None => {
                let ghost pre = self.entries@;
                self.entries.push((k, DeliveryAttemptRecord {
                    status: AttemptStatus::Pending,
                    attempt_count: 1,
                    last_attempt: now,
                }));
                proof {
                    assert forall|k2: AttemptKey| #[trigger] assoc_find(self.entries@, k2)
                        == (if k2 == k { Some(claimed_record(None, now)) } else { assoc_find(pre, k2) }) by {
                        lemma_assoc_find_push(pre, self.entries@.last(), k2);
                    }
                }
                true
            },
            Some(i) => {
                let rec = self.entries[i].1;
                let ok = match rec.status {
                    AttemptStatus::Failed => true,
                    AttemptStatus::Delivered => false,
                    AttemptStatus::Pending => now >= rec.last_attempt && now - rec.last_attempt >= lease,
                };
                if ok {
                    let count = if rec.attempt_count < u64::MAX {
                        rec.attempt_count + 1
                    } else {
                        rec.attempt_count
                    };
                    let ghost pre = self.entries@;
                    self.entries[i] = (k, DeliveryAttemptRecord {
                        status: AttemptStatus::Pending,
                        attempt_count: count,
                        last_attempt: now,
                    });
                    proof {
                        lemma_assoc_find_first(self.entries@, k, i as int);
                        assert forall|k2: AttemptKey| k2 != k implies #[trigger] assoc_find(self.entries@, k2)
                            == assoc_find(pre, k2) by {
                            lemma_assoc_find_update_other(pre, i as int, self.entries@[i as int], k2);
                        }
                    }
                }
                ok
            },
        }
    }

    /// Records the outcome of the in-flight attempt on a claimed key: the
    /// status becomes Delivered on success and Failed otherwise. The claim
    /// must still be in place (the claim happens-before its record write).
    pub fn record_result(&mut self, k: AttemptKey, delivered: bool)
        requires
            old(self).lookup(k) matches Some(r) && r.status == AttemptStatus::Pending,
        ensures
            final(self).lookup(k) == Some(recorded(old(self).lookup(k)->Some_0, delivered)),
            forall|k2: AttemptKey| k2 != k ==> final(self).lookup(k2) == old(self).lookup(k2),
    {
        match self.find_index(k) {
            Some(i) => {
                let rec = self.entries[i].1;
                let ghost pre = self.entries@;
                self.entries[i] = (k, DeliveryAttemptRecord {
                    status: if delivered {
                        AttemptStatus::Delivered
                    } else {
                        AttemptStatus::Failed
                    },
                    attempt_count: rec.attempt_count,
                    last_attempt: rec.last_attempt,
                });
                proof {
                    lemma_assoc_find_first(self.entries@, k, i as int);
                    assert forall|k2: AttemptKey| k2 != k implies #[trigger] assoc_find(self.entries@, k2)
                        == assoc_find(pre, k2) by {
                        lemma_assoc_find_update_other(pre, i as int, self.entries@[i as int], k2);
                    }
                }
            },
            None => {
                proof {
                    assert(false);
                }
            },
        }
    }
}

/// First-match lookup finds the entry at the first index holding the key.
proof fn lemma_assoc_find_first(s: Seq<(AttemptKey, DeliveryAttemptRecord)>, k: AttemptKey, i: int)
    requires
        0 <= i < s.len(),
        s[i].0 == k,
        forall|j: int| 0 <= j < i ==> s[j].0 != k,
    ensures
        assoc_find(s, k) == Some(s[i].1),
    decreases i,
{
    if i > 0 {
        lemma_assoc_find_first(s.drop_first(), k, i - 1);
    }
}

/// A key held by no entry is not found.
proof fn lemma_assoc_find_none(s: Seq<(AttemptKey, DeliveryAttemptRecord)>, k: AttemptKey)
    requires
        forall|j: int| 0 <= j < s.len() ==> s[j].0 != k,
    ensures
        assoc_find(s, k) == None::<DeliveryAttemptRecord>,
    decreases s.len(),
{
    if s.len() > 0 {
        lemma_assoc_find_none(s.drop_first(), k);
    }
}

/// Appending an entry changes lookups only for its key, and only if that key
/// was absent before.
proof fn lemma_assoc_find_push(
    s: Seq<(AttemptKey, DeliveryAttemptRecord)>,
    e: (AttemptKey, DeliveryAttemptRecord),
    k: AttemptKey,
)
    ensures
        assoc_find(s.push(e), k) == (match assoc_find(s, k) {
            Some(r) => Some(r),
            None => if e.0 == k {
                Some(e.1)
            } else {
                None
            },
        }),
    decreases s.len(),
{
    if s.len() == 0 {
        assert(s.push(e).drop_first() =~= Seq::<(AttemptKey, DeliveryAttemptRecord)>::empty());
        assert(assoc_find(Seq::<(AttemptKey, DeliveryAttemptRecord)>::empty(), k)
            == None::<DeliveryAttemptRecord>);
        assert(s.push(e)[0] == e);
    } else {
        assert(s.push(e)[0] == s[0]);
        if s[0].0 != k {
            assert(s.push(e).drop_first() =~= s.drop_first().push(e));
            lemma_assoc_find_push(s.drop_first(), e, k);
        }
    }
}

/// Overwriting the entry at one index leaves lookups of every other key
/// unchanged, provided the key stored at that index is kept.
proof fn lemma_assoc_find_update_other(
    s: Seq<(AttemptKey, DeliveryAttemptRecord)>,
    i: int,
    e: (AttemptKey, DeliveryAttemptRecord),
    k2: AttemptKey,
)
    requires
        0 <= i < s.len(),
        s[i].0 == e.0,
        k2 != e.0,
    ensures
        assoc_find(s.update(i, e), k2) == assoc_find(s, k2),
    decreases i,
{
    if i == 0 {
        assert(s.update(0, e).drop_first() =~= s.drop_first());
    } else {
        assert(s.update(i, e)[0] == s[0]);
        if s[0].0 != k2 {
            assert(s.update(i, e).drop_first() =~= s.drop_first().update(i - 1, e));
            lemma_assoc_find_update_other(s.drop_first(), i - 1, e, k2);
        }
    }
}

} // verus!
