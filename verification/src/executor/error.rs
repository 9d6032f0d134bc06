//! Errors of the execution pipeline.
//!
//! Every variant carries structured context, so that callers can fail closed
//! without matching on text.
use vstd::prelude::*;

use crate::amount::{decimal, decimal_text};
use crate::domain::error::{
    size_limit_message, size_limit_text, DomainError, ProfileError, StateChronicleError,
};
use crate::intent::error::IntentError;
use crate::text::{join2, join3, join5, join6};

verus! {

/// A rejected execution.
#[derive(Debug, Clone, PartialEq, Eq)]
pub enum ExecutorError {
    /// The intent itself is malformed.
    Intent(IntentError),
    /// A domain value is malformed.
    Domain(DomainError),
    /// The active profile's rules reject the operation.
    Profile(ProfileError),
    /// A protocol object is larger than its bound.
    SizeLimitExceeded {
        /// The name of the bounded value.
        name: String,
        /// The bound in bytes.
        limit: usize,
        /// The actual length in bytes.
        actual: usize,
    },
    /// The intent expired before acceptance.
    Expired {
        /// The rejected intent.
        intent_id: String,
    },
    /// The intent id was used before with another payload.
    DuplicateIntent {
        /// The colliding intent id.
        intent_id: String,
    },
    /// The resource is at another version than the intent expects.
    ExpectedVersionMismatch {
        /// The resource.
        resource: String,
        /// The version that the intent expects.
        expected: u64,
        /// The current version.
        actual: u64,
    },
    /// The intent has no tenant scope.
    TenantScopeMissing,
    /// The tenant does not exist.
    TenantNotFound {
        /// The unknown tenant.
        tenant: String,
    },
    /// The resource does not exist.
    ResourceNotFound {
        /// The missing resource.
        resource: String,
    },
    /// An authority denied the operation.
    AuthorityDenied,
    /// An authority proof is stale or revoked.
    AuthorityStale,
    /// An authority could not be reached.
    AuthorityUnavailable(String),
    /// The operation needs an authority binding and the intent has none.
    AuthorityMissing {
        /// The operation.
        operation: String,
    },
    /// The declared owner is not the current owner or holder.
    ActorMismatch {
        /// The owner or holder in the current state.
        expected: String,
        /// The owner or holder that the inputs declare.
        actual: String,
    },
    /// The resource's status blocks the operation.
    ResourceLocked {
        /// The blocked resource.
        resource: String,
    },
    /// No after-state can be computed.
    TransitionInvalid(String),
    /// The intent's signature does not verify, or its actor is not authorized.
    ActorAuthenticationFailed(String),
    /// A transfer's debit and credit do not match.
    TransferMismatch(String),
    /// A batch cannot commit as one unit.
    AtomicityViolation(String),
    /// A backing store failed.
    Store(String),
    /// The intent lacks the state type that its profile needs.
    StateTypeRequired,
    /// A settlement that declares a value leg came by a route that moves none.
    ValueLegSettleRouting {
        /// The rejected intent.
        intent_id: String,
    },
}

/// A missing part of a port bundle.
#[derive(Debug, Clone, Copy, PartialEq, Eq, Structural)]
#[non_exhaustive]
pub enum PortsBuildError {
    /// No intent store.
    MissingIntentStore,
    /// No state index.
    MissingStateIndex,
    /// No tenant store.
    MissingTenantStore,
    /// No transaction manager.
    MissingTransactionManager,
}

/// A missing part of an executor.
#[derive(Debug, Clone, Copy, PartialEq, Eq, Structural)]
#[non_exhaustive]
pub enum ExecutorBuildError {
    /// No port bundle.
    MissingPorts,
    /// No executor identity.
    MissingExecutor,
    /// No clock.
    MissingClock,
    /// No event id generator.
    MissingEventIdGen,
    /// No intent verifier.
    MissingIntentVerifier,
}

impl ExecutorError {
    /// The rendering of the error.
    pub open spec fn text(self) -> Seq<char> {
        match self {
            ExecutorError::Intent(inner) => inner.text(),
            ExecutorError::Domain(inner) => inner.text(),
            ExecutorError::Profile(inner) => inner.message@,
            ExecutorError::SizeLimitExceeded { name, limit, actual } => size_limit_text(
                name@,
                limit as nat,
                actual as nat,
            ),
            ExecutorError::Expired { intent_id } => "intent `"@ + intent_id@
                + "` expired before acceptance"@,
            ExecutorError::DuplicateIntent { intent_id } => "duplicate intent id `"@ + intent_id@
                + "` with different payload"@,
            ExecutorError::ExpectedVersionMismatch { resource, expected, actual } =>
                "expected version mismatch for `"@ + resource@ + "`: expected "@ + decimal(
                expected as nat,
            ) + ", actual "@ + decimal(actual as nat),
            ExecutorError::TenantScopeMissing => "intent has no tenant scope"@,
            ExecutorError::TenantNotFound { tenant } => "tenant `"@ + tenant@ + "` not found"@,
            ExecutorError::ResourceNotFound { resource } => "resource `"@ + resource@
                + "` not found"@,
            ExecutorError::AuthorityDenied => "authority evaluation denied"@,
            ExecutorError::AuthorityStale => "authority proof stale or revoked"@,
            ExecutorError::AuthorityUnavailable(m) => "authority source unavailable: "@ + m@,
            ExecutorError::AuthorityMissing { operation } =>
                "authority binding required for operation `"@ + operation@ + "`"@,
            ExecutorError::ActorMismatch { expected, actual } => "actor mismatch: expected `"@
                + expected@ + "`, got `"@ + actual@ + "`"@,
            ExecutorError::ResourceLocked { resource } => "resource `"@ + resource@
                + "` is locked, burned, revoked, or escrowed"@,
            ExecutorError::TransitionInvalid(m) => "invalid transition: "@ + m@,
            ExecutorError::ActorAuthenticationFailed(m) => "actor authentication failed: "@ + m@,
            ExecutorError::TransferMismatch(m) => "transfer mismatch: "@ + m@,
            ExecutorError::AtomicityViolation(m) => "atomicity violation: "@ + m@,
            ExecutorError::Store(m) => "store error: "@ + m@,
            ExecutorError::StateTypeRequired => "intent requires a state_type"@,
            ExecutorError::ValueLegSettleRouting { intent_id } => "intent `"@ + intent_id@
                + "` declares a value leg and must be settled with its value leg"@,
        }
    }

    /// Renders the error.
    pub fn message(&self) -> (r: String)
        ensures
            r@ == self.text(),
    {
        match self {
            ExecutorError::Intent(inner) => inner.message(),
            ExecutorError::Domain(inner) => inner.message(),
            ExecutorError::Profile(inner) => inner.message.clone(),
            ExecutorError::SizeLimitExceeded { name, limit, actual } => size_limit_message(
                name.as_str(),
                *limit,
                *actual,
            ),
            ExecutorError::Expired { intent_id } => join3(
                "intent `",
                intent_id.as_str(),
                "` expired before acceptance",
            ),
            ExecutorError::DuplicateIntent { intent_id } => join3(
                "duplicate intent id `",
                intent_id.as_str(),
                "` with different payload",
            ),
            ExecutorError::ExpectedVersionMismatch { resource, expected, actual } => {
                let expected_text = decimal_text(*expected as u128);
                let actual_text = decimal_text(*actual as u128);
                join6(
                    "expected version mismatch for `",
                    resource.as_str(),
                    "`: expected ",
                    expected_text.as_str(),
                    ", actual ",
                    actual_text.as_str(),
                )
            },
            ExecutorError::TenantScopeMissing => "intent has no tenant scope".to_owned(),
            ExecutorError::TenantNotFound { tenant } => join3(
                "tenant `",
                tenant.as_str(),
                "` not found",
            ),
            ExecutorError::ResourceNotFound { resource } => join3(
                "resource `",
                resource.as_str(),
                "` not found",
            ),
            ExecutorError::AuthorityDenied => "authority evaluation denied".to_owned(),
            ExecutorError::AuthorityStale => "authority proof stale or revoked".to_owned(),
            ExecutorError::AuthorityUnavailable(m) => join2(
                "authority source unavailable: ",
                m.as_str(),
            ),
            ExecutorError::AuthorityMissing { operation } => join3(
                "authority binding required for operation `",
                operation.as_str(),
                "`",
            ),
            ExecutorError::ActorMismatch { expected, actual } => join5(
                "actor mismatch: expected `",
                expected.as_str(),
                "`, got `",
                actual.as_str(),
                "`",
            ),
            ExecutorError::ResourceLocked { resource } => join3(
                "resource `",
                resource.as_str(),
                "` is locked, burned, revoked, or escrowed",
            ),
            ExecutorError::TransitionInvalid(m) => join2("invalid transition: ", m.as_str()),
            ExecutorError::ActorAuthenticationFailed(m) => join2(
                "actor authentication failed: ",
                m.as_str(),
            ),
            ExecutorError::TransferMismatch(m) => join2("transfer mismatch: ", m.as_str()),
            ExecutorError::AtomicityViolation(m) => join2("atomicity violation: ", m.as_str()),
            ExecutorError::Store(m) => join2("store error: ", m.as_str()),
            ExecutorError::StateTypeRequired => "intent requires a state_type".to_owned(),
            ExecutorError::ValueLegSettleRouting { intent_id } => join3(
                "intent `",
                intent_id.as_str(),
                "` declares a value leg and must be settled with its value leg",
            ),
        }
    }
}

impl PortsBuildError {
    /// The rendering of the error.
    pub open spec fn text(self) -> Seq<char> {
        match self {
            PortsBuildError::MissingIntentStore => "missing required port `intent_store`"@,
            PortsBuildError::MissingStateIndex => "missing required port `state_index`"@,
            PortsBuildError::MissingTenantStore => "missing required port `tenant_store`"@,
            PortsBuildError::MissingTransactionManager =>
                "missing required port `transaction_manager`"@,
        }
    }

    /// Renders the error.
    pub fn message(&self) -> (r: String)
        ensures
            r@ == self.text(),
    {
        match self {
            PortsBuildError::MissingIntentStore => {
                "missing required port `intent_store`".to_owned()
            },
            PortsBuildError::MissingStateIndex => "missing required port `state_index`".to_owned(),
            PortsBuildError::MissingTenantStore => {
                "missing required port `tenant_store`".to_owned()
            },
            PortsBuildError::MissingTransactionManager => {
                "missing required port `transaction_manager`".to_owned()
            },
        }
    }
}

impl ExecutorBuildError {
    /// The rendering of the error.
    pub open spec fn text(self) -> Seq<char> {
        match self {
            ExecutorBuildError::MissingPorts => "missing required executor component `ports`"@,
            ExecutorBuildError::MissingExecutor =>
                "missing required executor component `executor`"@,
            ExecutorBuildError::MissingClock => "missing required executor component `clock`"@,
            ExecutorBuildError::MissingEventIdGen =>
                "missing required executor component `event_id_gen`"@,
            ExecutorBuildError::MissingIntentVerifier =>
                "missing required executor component `intent_verifier`"@,
        }
    }

    /// Renders the error.
    pub fn message(&self) -> (r: String)
        ensures
            r@ == self.text(),
    {
        match self {
            ExecutorBuildError::MissingPorts => {
                "missing required executor component `ports`".to_owned()
            },
            ExecutorBuildError::MissingExecutor => {
                "missing required executor component `executor`".to_owned()
            },
            ExecutorBuildError::MissingClock => {
                "missing required executor component `clock`".to_owned()
            },
            ExecutorBuildError::MissingEventIdGen => {
                "missing required executor component `event_id_gen`".to_owned()
            },
            ExecutorBuildError::MissingIntentVerifier => {
                "missing required executor component `intent_verifier`".to_owned()
            },
        }
    }
}

impl From<StateChronicleError> for ExecutorError {
    fn from(source: StateChronicleError) -> (r: Self) {
        match source {
            StateChronicleError::SizeLimitExceeded { name, limit, actual } => {
                ExecutorError::SizeLimitExceeded { name, limit, actual }
            },
            other => ExecutorError::Domain(DomainError::Core(other)),
        }
    }
}

impl vstd::std_specs::convert::FromSpecImpl<StateChronicleError> for ExecutorError {
    open spec fn obeys_from_spec() -> bool {
        true
    }

    open spec fn from_spec(source: StateChronicleError) -> Self {
        match source {
            StateChronicleError::SizeLimitExceeded { name, limit, actual } => {
                ExecutorError::SizeLimitExceeded { name, limit, actual }
            },
            other => ExecutorError::Domain(DomainError::Core(other)),
        }
    }
}

} // verus!
