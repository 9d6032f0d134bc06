//! Errors of the backing stores and services.
use vstd::prelude::*;

use crate::text::join2;

verus! {

/// A refused or failed authorization.
#[derive(Debug, Clone, PartialEq, Eq)]
pub enum AuthorizationError {
    /// The principal is not authenticated or has expired.
    Unauthenticated,
    /// The principal may not make this change.
    Denied,
    /// The policy service gave no safe decision.
    Unavailable(String),
    /// The request names the wrong identity or scope.
    ContextMismatch(String),
}

impl AuthorizationError {
    /// The rendering of the error.
    pub open spec fn text(self) -> Seq<char> {
        match self {
            AuthorizationError::Unauthenticated => "authentication failed"@,
            AuthorizationError::Denied => "authorization denied"@,
            AuthorizationError::Unavailable(m) => "authorization service unavailable: "@ + m@,
            AuthorizationError::ContextMismatch(m) => "authorization context mismatch: "@ + m@,
        }
    }

    /// Renders the error.
    pub fn message(&self) -> (r: String)
        ensures
            r@ == self.text(),
    {
        match self {
            AuthorizationError::Unauthenticated => "authentication failed".to_owned(),
            AuthorizationError::Denied => "authorization denied".to_owned(),
            AuthorizationError::Unavailable(m) => join2("authorization service unavailable: ", m.as_str()),
            AuthorizationError::ContextMismatch(m) => join2("authorization context mismatch: ", m.as_str()),
        }
    }
}

/// A failure of the commit store.
#[derive(Debug, Clone, PartialEq, Eq)]
pub enum CommitStoreError {
    /// A commit with this id is stored already.
    Duplicate,
    /// The store cannot be reached.
    Unavailable(String),
}

impl CommitStoreError {
    /// The rendering of the error.
    pub open spec fn text(self) -> Seq<char> {
        match self {
            CommitStoreError::Duplicate => "commit id already stored"@,
            CommitStoreError::Unavailable(m) => "commit store unavailable: "@ + m@,
        }
    }

    /// Renders the error.
    pub fn message(&self) -> (r: String)
        ensures
            r@ == self.text(),
    {
        match self {
            CommitStoreError::Duplicate => "commit id already stored".to_owned(),
            CommitStoreError::Unavailable(m) => join2("commit store unavailable: ", m.as_str()),
        }
    }
}

/// A failure of the event publisher.
#[derive(Debug, Clone, PartialEq, Eq)]
pub enum EventPublisherError {
    /// The publisher rejected the payload.
    Rejected(String),
    /// The publisher cannot be reached.
    Unavailable(String),
}

impl EventPublisherError {
    /// The rendering of the error.
    pub open spec fn text(self) -> Seq<char> {
        match self {
            EventPublisherError::Rejected(m) => "publisher rejected delivery: "@ + m@,
            EventPublisherError::Unavailable(m) => "event publisher unavailable: "@ + m@,
        }
    }

    /// Renders the error.
    pub fn message(&self) -> (r: String)
        ensures
            r@ == self.text(),
    {
        match self {
            EventPublisherError::Rejected(m) => join2("publisher rejected delivery: ", m.as_str()),
            EventPublisherError::Unavailable(m) => join2("event publisher unavailable: ", m.as_str()),
        }
    }
}

/// A failure of the event store.
#[derive(Debug, Clone, PartialEq, Eq)]
pub enum EventStoreError {
    /// A batch holds an event id twice.
    DuplicateEventId,
    /// The store cannot be reached.
    Unavailable(String),
}

impl EventStoreError {
    /// The rendering of the error.
    pub open spec fn text(self) -> Seq<char> {
        match self {
            EventStoreError::DuplicateEventId => "batch contains a duplicate event id"@,
            EventStoreError::Unavailable(m) => "event store unavailable: "@ + m@,
        }
    }

    /// Renders the error.
    pub fn message(&self) -> (r: String)
        ensures
            r@ == self.text(),
    {
        match self {
            EventStoreError::DuplicateEventId => "batch contains a duplicate event id".to_owned(),
            EventStoreError::Unavailable(m) => join2("event store unavailable: ", m.as_str()),
        }
    }
}

/// A failure of the intent store.
#[derive(Debug, Clone, PartialEq, Eq)]
pub enum IntentStoreError {
    /// The intent id is stored with another payload.
    Duplicate,
    /// The store cannot be reached.
    Unavailable(String),
}

impl IntentStoreError {
    /// The rendering of the error.
    pub open spec fn text(self) -> Seq<char> {
        match self {
            IntentStoreError::Duplicate => "intent id already exists with a different payload"@,
            IntentStoreError::Unavailable(m) => "intent store unavailable: "@ + m@,
        }
    }

    /// Renders the error.
    pub fn message(&self) -> (r: String)
        ensures
            r@ == self.text(),
    {
        match self {
            IntentStoreError::Duplicate => "intent id already exists with a different payload".to_owned(),
            IntentStoreError::Unavailable(m) => join2("intent store unavailable: ", m.as_str()),
        }
    }
}

/// A failure of the durable ledger.
#[derive(Debug, Clone, PartialEq, Eq)]
pub enum LedgerStoreError {
    /// A version or head check rejected the transaction.
    Conflict(String),
    /// The idempotency reservation is invalid.
    Idempotency(String),
    /// The ledger cannot be reached.
    Unavailable(String),
    /// The transaction was completed before.
    Closed,
    /// The transaction violates an invariant.
    Invariant(String),
}

impl LedgerStoreError {
    /// The rendering of the error.
    pub open spec fn text(self) -> Seq<char> {
        match self {
            LedgerStoreError::Conflict(m) => "ledger transaction conflict: "@ + m@,
            LedgerStoreError::Idempotency(m) => "ledger idempotency error: "@ + m@,
            LedgerStoreError::Unavailable(m) => "ledger store unavailable: "@ + m@,
            LedgerStoreError::Closed => "ledger transaction is closed"@,
            LedgerStoreError::Invariant(m) => "ledger invariant violation: "@ + m@,
        }
    }

    /// Renders the error.
    pub fn message(&self) -> (r: String)
        ensures
            r@ == self.text(),
    {
        match self {
            LedgerStoreError::Conflict(m) => join2("ledger transaction conflict: ", m.as_str()),
            LedgerStoreError::Idempotency(m) => join2("ledger idempotency error: ", m.as_str()),
            LedgerStoreError::Unavailable(m) => join2("ledger store unavailable: ", m.as_str()),
            LedgerStoreError::Closed => "ledger transaction is closed".to_owned(),
            LedgerStoreError::Invariant(m) => join2("ledger invariant violation: ", m.as_str()),
        }
    }

    /// Whether the same idempotent request may succeed when it is made again:
    /// after a conflict or a temporary failure, and after nothing else.
    pub fn is_retryable(&self) -> (r: bool)
        ensures
            r == (self is Conflict || self is Unavailable),
    {
        match self {
            LedgerStoreError::Conflict(_) | LedgerStoreError::Unavailable(_) => true,
            LedgerStoreError::Idempotency(_)
            | LedgerStoreError::Closed
            | LedgerStoreError::Invariant(_) => false,
        }
    }
}

/// A failure of the proof index.
#[derive(Debug, Clone, PartialEq, Eq)]
pub enum ProofIndexError {
    /// No proof of the claim can be made.
    NotFound,
    /// The index cannot be reached.
    Unavailable(String),
}

impl ProofIndexError {
    /// The rendering of the error.
    pub open spec fn text(self) -> Seq<char> {
        match self {
            ProofIndexError::NotFound => "no proof available for the requested claim"@,
            ProofIndexError::Unavailable(m) => "proof index unavailable: "@ + m@,
        }
    }

    /// Renders the error.
    pub fn message(&self) -> (r: String)
        ensures
            r@ == self.text(),
    {
        match self {
            ProofIndexError::NotFound => "no proof available for the requested claim".to_owned(),
            ProofIndexError::Unavailable(m) => join2("proof index unavailable: ", m.as_str()),
        }
    }
}

/// A failure of the snapshot store.
#[derive(Debug, Clone, PartialEq, Eq)]
pub enum SnapshotStoreError {
    /// The stored bytes fail an integrity check.
    Corrupt(String),
    /// The store cannot be reached.
    Unavailable(String),
}

impl SnapshotStoreError {
    /// The rendering of the error.
    pub open spec fn text(self) -> Seq<char> {
        match self {
            SnapshotStoreError::Corrupt(m) => "stored snapshot is corrupt: "@ + m@,
            SnapshotStoreError::Unavailable(m) => "snapshot store unavailable: "@ + m@,
        }
    }

    /// Renders the error.
    pub fn message(&self) -> (r: String)
        ensures
            r@ == self.text(),
    {
        match self {
            SnapshotStoreError::Corrupt(m) => join2("stored snapshot is corrupt: ", m.as_str()),
            SnapshotStoreError::Unavailable(m) => join2("snapshot store unavailable: ", m.as_str()),
        }
    }
}

/// A failure of the state index.
#[derive(Debug, Clone, PartialEq, Eq)]
pub enum StateIndexError {
    /// There is no consistent projection.
    Inconsistent(String),
    /// The index cannot be reached.
    Unavailable(String),
}

impl StateIndexError {
    /// The rendering of the error.
    pub open spec fn text(self) -> Seq<char> {
        match self {
            StateIndexError::Inconsistent(m) => "no consistent index projection available: "@ + m@,
            StateIndexError::Unavailable(m) => "state index unavailable: "@ + m@,
        }
    }

    /// Renders the error.
    pub fn message(&self) -> (r: String)
        ensures
            r@ == self.text(),
    {
        match self {
            StateIndexError::Inconsistent(m) => join2("no consistent index projection available: ", m.as_str()),
            StateIndexError::Unavailable(m) => join2("state index unavailable: ", m.as_str()),
        }
    }
}

/// A failure of the tenant store.
#[derive(Debug, Clone, PartialEq, Eq)]
pub enum TenantStoreError {
    /// The tenant has no checkpoint root yet.
    NotFound,
    /// The store cannot be reached.
    Unavailable(String),
}

impl TenantStoreError {
    /// The rendering of the error.
    pub open spec fn text(self) -> Seq<char> {
        match self {
            TenantStoreError::NotFound => "tenant checkpoint root not found"@,
            TenantStoreError::Unavailable(m) => "tenant store unavailable: "@ + m@,
        }
    }

    /// Renders the error.
    pub fn message(&self) -> (r: String)
        ensures
            r@ == self.text(),
    {
        match self {
            TenantStoreError::NotFound => "tenant checkpoint root not found".to_owned(),
            TenantStoreError::Unavailable(m) => join2("tenant store unavailable: ", m.as_str()),
        }
    }
}

/// A failure of the trade index.
#[derive(Debug, Clone, PartialEq, Eq)]
pub enum TradeIndexError {
    /// There is no record of the trade.
    NotFound,
    /// The index cannot be reached.
    Unavailable(String),
}

impl TradeIndexError {
    /// The rendering of the error.
    pub open spec fn text(self) -> Seq<char> {
        match self {
            TradeIndexError::NotFound => "no trade record available for the requested trade id"@,
            TradeIndexError::Unavailable(m) => "trade index unavailable: "@ + m@,
        }
    }

    /// Renders the error.
    pub fn message(&self) -> (r: String)
        ensures
            r@ == self.text(),
    {
        match self {
            TradeIndexError::NotFound => "no trade record available for the requested trade id".to_owned(),
            TradeIndexError::Unavailable(m) => join2("trade index unavailable: ", m.as_str()),
        }
    }
}

/// A failure of the transaction coordinator.
#[derive(Debug, Clone, PartialEq, Eq)]
pub enum TransactionManagerError {
    /// The coordinator aborted the transaction.
    Aborted,
    /// The commit failed.
    CommitFailed(String),
    /// The rollback failed.
    RollbackFailed(String),
    /// The coordinator cannot be reached.
    Unavailable(String),
}

impl TransactionManagerError {
    /// The rendering of the error.
    pub open spec fn text(self) -> Seq<char> {
        match self {
            TransactionManagerError::Aborted => "transaction aborted by coordinator"@,
            TransactionManagerError::CommitFailed(m) => "transaction commit failed: "@ + m@,
            TransactionManagerError::RollbackFailed(m) => "transaction rollback failed: "@ + m@,
            TransactionManagerError::Unavailable(m) => "transaction coordinator unavailable: "@ + m@,
        }
    }

    /// Renders the error.
    pub fn message(&self) -> (r: String)
        ensures
            r@ == self.text(),
    {
        match self {
            TransactionManagerError::Aborted => "transaction aborted by coordinator".to_owned(),
            TransactionManagerError::CommitFailed(m) => join2("transaction commit failed: ", m.as_str()),
            TransactionManagerError::RollbackFailed(m) => join2("transaction rollback failed: ", m.as_str()),
            TransactionManagerError::Unavailable(m) => join2("transaction coordinator unavailable: ", m.as_str()),
        }
    }
}

/// A failed authority evaluation.
#[derive(Debug, Clone, PartialEq, Eq)]
pub enum TrustGrantError {
    /// The authority denied the operation.
    Denied,
    /// The authority cannot be reached.
    Unavailable(String),
    /// The authority proof is stale or revoked.
    Stale,
}

impl TrustGrantError {
    /// The rendering of the error.
    pub open spec fn text(self) -> Seq<char> {
        match self {
            TrustGrantError::Denied => "authority evaluation denied"@,
            TrustGrantError::Unavailable(m) => "authority source unavailable: "@ + m@,
            TrustGrantError::Stale => "authority proof stale or revoked"@,
        }
    }

    /// Renders the error.
    pub fn message(&self) -> (r: String)
        ensures
            r@ == self.text(),
    {
        match self {
            TrustGrantError::Denied => "authority evaluation denied".to_owned(),
            TrustGrantError::Unavailable(m) => join2("authority source unavailable: ", m.as_str()),
            TrustGrantError::Stale => "authority proof stale or revoked".to_owned(),
        }
    }
}

} // verus!
