//! Core data model of the notification dispatch lifecycle: notifications read
//! from the ledger, recipient delivery endpoints, per-attempt records, and the
//! aggregated per-notification outcome.
use vstd::prelude::*;

verus! {

/// A delivery mechanism for one notification: a mobile push message or an
/// email. A recipient may have at most one enabled endpoint per kind.
#[derive(Clone, Copy, PartialEq, Eq, Structural, Debug)]
pub enum ChannelKind {
    Push,
    Email,
}

/// One pending notification, as read from the ledger. Immutable once fetched;
/// the dispatcher holds only a transient copy for the duration of one run.
pub struct Notification {
    /// Ledger-assigned identity, unique within one snapshot.
    pub id: u64,
    /// Identity of the recipient the notification is addressed to.
    pub recipient: u64,
    /// Payload title.
    pub title: String,
    /// Payload body.
    pub body: String,
    /// Creation timestamp assigned by the ledger.
    pub created_at: u64,
}

/// One delivery endpoint of a recipient: the channel it belongs to, the
/// address to send to, and whether the recipient has the channel enabled.
pub struct ChannelEndpoint {
    pub kind: ChannelKind,
    pub address: String,
    pub enabled: bool,
}

/// One recipient's row in the directory snapshot: the recipient identity and
/// the delivery endpoints stored for it.
pub struct DirectoryEntry {
    pub recipient: u64,
    pub endpoints: Vec<ChannelEndpoint>,
}

/// Status of one delivery attempt record in the dedup store.
#[derive(Clone, Copy, PartialEq, Eq, Structural, Debug)]
pub enum AttemptStatus {
    /// Claimed by a worker; the attempt is in flight or was abandoned.
    Pending,
    /// The channel confirmed delivery; the key is never attempted again.
    Delivered,
    /// The last attempt failed; a later run may claim the key again.
    Failed,
}

/// Key of a delivery attempt record: one notification, one recipient, one
/// channel. Each key is attempted by at most one worker at a time.
#[derive(Clone, Copy, PartialEq, Eq, Structural, Debug)]
pub struct AttemptKey {
    pub notification_id: u64,
    pub recipient: u64,
    pub channel: ChannelKind,
}

/// The value stored per attempt key: current status, how many attempts have
/// been claimed so far, and when the last claim was taken.
#[derive(Clone, Copy, PartialEq, Eq, Structural, Debug)]
pub struct DeliveryAttemptRecord {
    pub status: AttemptStatus,
    pub attempt_count: u64,
    pub last_attempt: u64,
}

/// Aggregated view over the attempt records of one notification's enabled
/// channels.
#[derive(Clone, Copy, PartialEq, Eq, Structural, Debug)]
pub enum NotificationOutcome {
    /// Every enabled channel has a Delivered record; safe to remove.
    FullyDelivered,
    /// Some, but not all, enabled channels are Delivered.
    PartiallyDelivered,
    /// The recipient has no enabled channel; nothing can be attempted.
    Undeliverable,
    /// At least one enabled channel exists and none is Delivered yet.
    Pending,
}

/// One send the dispatcher has claimed and now asks a delivery channel to
/// perform: the attempt key, the endpoint address, and the payload.
pub struct SendTask {
    pub key: AttemptKey,
    pub address: String,
    pub title: String,
    pub body: String,
}

/// One row of a dispatch report: a fetched notification and its outcome.
#[derive(Clone, Copy, PartialEq, Eq, Structural, Debug)]
pub struct ReportEntry {
    pub id: u64,
    pub outcome: NotificationOutcome,
}

/// Result of one dispatch run: one entry per fetched notification, in fetch
/// order.
pub struct DispatchReport {
    pub entries: Vec<ReportEntry>,
}

/// Result of one reconcile pass: which ids the ledger acknowledged removing
/// and which removal calls failed and stay for a later run.
pub struct RemovalReport {
    pub removed: Vec<u64>,
    pub failed: Vec<u64>,
}

/// Why the fetch phase failed. A fetch failure is fatal for the run: no
/// delivery is attempted and no record is written.
#[derive(Clone, Copy, PartialEq, Eq, Structural, Debug)]
pub enum FetchError {
    /// The ledger could not be reached.
    Unreachable,
    /// The ledger rejected the caller's identity.
    Unauthorized,
}

/// The attempt key of one notification on one channel.
pub open spec fn key_of(n: Notification, kind: ChannelKind) -> AttemptKey {
    AttemptKey { notification_id: n.id, recipient: n.recipient, channel: kind }
}

/// Builds the attempt key of one notification on one channel.
pub fn make_key(n: &Notification, kind: ChannelKind) -> (k: AttemptKey)
    ensures
        k == key_of(*n, kind),
{
    AttemptKey { notification_id: n.id, recipient: n.recipient, channel: kind }
}

} // verus!
