//! Errors of intent parsing and validation.
use vstd::prelude::*;

use crate::domain::error::{size_limit_message, size_limit_text, DomainError, StateChronicleError};
use crate::text::{join2, join5};

verus! {

/// A rejected intent payload.
#[derive(Debug, Clone, PartialEq, Eq)]
pub enum IntentError {
    /// The payload is larger than the protocol bound.
    SizeLimitExceeded {
        /// The name of the bounded value.
        name: String,
        /// The bound in bytes.
        limit: usize,
        /// The actual length in bytes.
        actual: usize,
    },
    /// The payload is not JSON of the expected shape.
    InvalidJson {
        /// What the JSON decoder objected to.
        source: String,
    },
    /// The payload names another schema.
    InvalidSchema {
        /// The schema in the payload.
        found: String,
        /// The supported schema.
        expected: String,
    },
    /// A field fails its type or protocol check.
    InvalidField(String),
    /// The expiry is not after the creation time.
    InvalidExpiry(String),
    /// An identifier, operation, key id or nonce is malformed.
    Domain(DomainError),
}

impl IntentError {
    /// The rendering of the error.
    pub open spec fn text(self) -> Seq<char> {
        match self {
            IntentError::SizeLimitExceeded { name, limit, actual } => size_limit_text(
                name@,
                limit as nat,
                actual as nat,
            ),
            IntentError::InvalidJson { source } => "intent payload is not valid JSON: "@ + source@,
            IntentError::InvalidSchema { found, expected } => "unsupported intent schema `"@
                + found@ + "`; expected `"@ + expected@ + "`"@,
            IntentError::InvalidField(m) => "invalid intent field: "@ + m@,
            IntentError::InvalidExpiry(m) => "invalid intent expiry: "@ + m@,
            IntentError::Domain(inner) => inner.text(),
        }
    }

    /// Renders the error.
    pub fn message(&self) -> (r: String)
        ensures
            r@ == self.text(),
    {
        match self {
            IntentError::SizeLimitExceeded { name, limit, actual } => size_limit_message(
                name.as_str(),
                *limit,
                *actual,
            ),
            IntentError::InvalidJson { source } => join2(
                "intent payload is not valid JSON: ",
                source.as_str(),
            ),
            IntentError::InvalidSchema { found, expected } => join5(
                "unsupported intent schema `",
                found.as_str(),
                "`; expected `",
                expected.as_str(),
                "`",
            ),
            IntentError::InvalidField(m) => join2("invalid intent field: ", m.as_str()),
            IntentError::InvalidExpiry(m) => join2("invalid intent expiry: ", m.as_str()),
            IntentError::Domain(inner) => inner.message(),
        }
    }
}

impl From<StateChronicleError> for IntentError {
    fn from(source: StateChronicleError) -> (r: Self) {
        match source {
            StateChronicleError::SizeLimitExceeded { name, limit, actual } => {
                IntentError::SizeLimitExceeded { name, limit, actual }
            },
            other => IntentError::Domain(DomainError::Core(other)),
        }
    }
}

impl vstd::std_specs::convert::FromSpecImpl<StateChronicleError> for IntentError {
    open spec fn obeys_from_spec() -> bool {
        true
    }

    open spec fn from_spec(source: StateChronicleError) -> Self {
        match source {
            StateChronicleError::SizeLimitExceeded { name, limit, actual } => {
                IntentError::SizeLimitExceeded { name, limit, actual }
            },
            other => IntentError::Domain(DomainError::Core(other)),
        }
    }
}

} // verus!
