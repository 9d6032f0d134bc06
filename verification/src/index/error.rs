//! Errors of the read side.
use vstd::prelude::*;

use crate::domain::error::DomainError;
use crate::text::{join2, join3};

verus! {

/// A batch or record that the index does not accept.
#[derive(Debug, Clone, PartialEq, Eq)]
pub enum IndexError {
    /// A domain value is malformed.
    Domain(DomainError),
    /// A trade event names no trade.
    MissingTradeId(String),
    /// A commit is not of one tenant.
    NonTenantCommit(String),
    /// A value leg or pair is malformed.
    MalformedValue(String),
    /// A recorded event cannot be found.
    MissingEvent(String),
}

/// A trade proof that cannot be assembled or does not verify.
#[derive(Debug, Clone, PartialEq, Eq)]
pub enum ProofError {
    /// No verifying key is known for a tenant.
    KeyNotFound(String),
    /// The proof is malformed or does not verify.
    Invalid(String),
}

impl ProofError {
    /// The rendering of the error.
    pub open spec fn text(self) -> Seq<char> {
        match self {
            ProofError::KeyNotFound(tenant) => "no verifying key for tenant `"@ + tenant@ + "`"@,
            ProofError::Invalid(m) => m@,
        }
    }

    /// Renders the error.
    pub fn message(&self) -> (r: String)
        ensures
            r@ == self.text(),
    {
        match self {
            ProofError::KeyNotFound(tenant) => join3(
                "no verifying key for tenant `",
                tenant.as_str(),
                "`",
            ),
            ProofError::Invalid(m) => m.clone(),
        }
    }
}

/// A failed request to the trade service.
#[derive(Debug, Clone, PartialEq, Eq)]
pub enum TradeServiceError {
    /// The index rejected a batch or record.
    Index(IndexError),
    /// A domain value is malformed.
    Domain(DomainError),
    /// A proof cannot be assembled or does not verify.
    Proof(ProofError),
    /// The event store could not be reached.
    EventStore(String),
    /// The trade index could not be reached.
    TradeIndex(String),
    /// The proof index could not be reached.
    ProofIndex(String),
    /// The commit store could not be reached.
    CommitStore(String),
    /// A recorded event is not in the event store.
    MissingEvent(String),
}

impl IndexError {
    /// The rendering of the error.
    pub open spec fn text(self) -> Seq<char> {
        match self {
            IndexError::Domain(inner) => inner.text(),
            IndexError::MissingTradeId(m) => "trade event is missing its trade_id: "@ + m@,
            IndexError::NonTenantCommit(m) => "trade batch commit is not tenant-scoped: "@ + m@,
            IndexError::MalformedValue(m) => "malformed trade value leg or pair: "@ + m@,
            IndexError::MissingEvent(m) => "missing event `"@ + m@
                + "` during history reconstruction"@,
        }
    }

    /// Renders the error.
    pub fn message(&self) -> (r: String)
        ensures
            r@ == self.text(),
    {
        match self {
            IndexError::Domain(inner) => inner.message(),
            IndexError::MissingTradeId(m) => join2(
                "trade event is missing its trade_id: ",
                m.as_str(),
            ),
            IndexError::NonTenantCommit(m) => join2(
                "trade batch commit is not tenant-scoped: ",
                m.as_str(),
            ),
            IndexError::MalformedValue(m) => join2(
                "malformed trade value leg or pair: ",
                m.as_str(),
            ),
            IndexError::MissingEvent(m) => join3(
                "missing event `",
                m.as_str(),
                "` during history reconstruction",
            ),
        }
    }
}

impl TradeServiceError {
    /// The rendering of the error.
    pub open spec fn text(self) -> Seq<char> {
        match self {
            TradeServiceError::Index(inner) => inner.text(),
            TradeServiceError::Domain(inner) => inner.text(),
            TradeServiceError::Proof(inner) => inner.text(),
            TradeServiceError::EventStore(m) => "event store unavailable: "@ + m@,
            TradeServiceError::TradeIndex(m) => "trade index unavailable: "@ + m@,
            TradeServiceError::ProofIndex(m) => "proof index unavailable: "@ + m@,
            TradeServiceError::CommitStore(m) => "commit store unavailable: "@ + m@,
            TradeServiceError::MissingEvent(m) => "missing event `"@ + m@
                + "` in event store during history reconstruction"@,
        }
    }

    /// Renders the error.
    pub fn message(&self) -> (r: String)
        ensures
            r@ == self.text(),
    {
        match self {
            TradeServiceError::Index(inner) => inner.message(),
            TradeServiceError::Domain(inner) => inner.message(),
            TradeServiceError::Proof(inner) => inner.message(),
            TradeServiceError::EventStore(m) => join2("event store unavailable: ", m.as_str()),
            TradeServiceError::TradeIndex(m) => join2("trade index unavailable: ", m.as_str()),
            TradeServiceError::ProofIndex(m) => join2("proof index unavailable: ", m.as_str()),
            TradeServiceError::CommitStore(m) => join2("commit store unavailable: ", m.as_str()),
            TradeServiceError::MissingEvent(m) => join3(
                "missing event `",
                m.as_str(),
                "` in event store during history reconstruction",
            ),
        }
    }
}

} // verus!
