//! Verified core of a notification dispatch and acknowledgment pipeline: a
//! batch job that fetches pending notifications from an external ledger,
//! delivers them over per-recipient channels (push, email) with idempotent
//! claim/record bookkeeping, and removes from the ledger exactly those
//! notifications whose every enabled channel confirmed delivery.
pub mod config;
pub mod dispatch;
pub mod laws;
pub mod model;
pub mod reconcile;
pub mod store;
