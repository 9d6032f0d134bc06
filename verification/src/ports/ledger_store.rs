//! What goes over the boundary of the durable ledger.
use vstd::prelude::*;

use crate::domain::digest::ContentDigest;
use crate::domain::ids::{CommitId, TenantId};

verus! {

/// A notification that is stored together with the mutation it reports.
#[derive(Debug, Clone, PartialEq, Eq)]
pub struct OutboxRecord {
    /// The stable key of the delivery, unique for its commit and event.
    pub delivery_key: String,
    /// The tenant whose mutation is reported.
    pub tenant: TenantId,
    /// The commit that may be published.
    pub commit_id: CommitId,
    /// The digest of the body.
    pub payload_digest: ContentDigest,
    /// The canonical serialized body.
    pub payload: Vec<u8>,
}

/// The outcome of reserving an idempotency key.
#[derive(Debug, Clone, PartialEq, Eq)]
pub enum IdempotencyClaim {
    /// The caller owns a new reservation.
    NewReservation {
        /// The attempt that owns it.
        attempt_id: String,
    },
    /// The mutation committed before and can be replayed.
    Committed {
        /// The commit of the first mutation.
        commit_id: CommitId,
    },
    /// Another attempt owns the reservation.
    InProgress {
        /// The attempt that owns it.
        attempt_id: String,
        /// When its lease ends, in seconds since the epoch.
        lease_expires_at_unix: i64,
    },
    /// The key is taken by a different payload.
    ConflictDifferentPayload,
}

} // verus!
