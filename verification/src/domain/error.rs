//! Errors of the domain model.
use vstd::prelude::*;

use crate::amount::{decimal, decimal_text};
use crate::text::{join2, join6};

verus! {

/// A failure of the protocol core: sizes, digests, canonical form, signatures.
#[derive(Debug, Clone, PartialEq, Eq)]
pub enum StateChronicleError {
    /// A protocol object is larger than its bound.
    SizeLimitExceeded {
        /// The name of the bounded value.
        name: String,
        /// The bound in bytes.
        limit: usize,
        /// The actual length in bytes.
        actual: usize,
    },
    /// A value has no canonical byte form.
    Canonicalization(String),
    /// A digest text is malformed.
    InvalidDigest(String),
    /// A signature does not verify.
    SignatureVerification(String),
}

/// A value that the domain model does not accept.
#[derive(Debug, Clone, PartialEq, Eq)]
pub enum DomainError {
    /// An id lacks its prefix or body, or is too long.
    InvalidId(String),
    /// An operation name is empty or too long.
    InvalidOperation(String),
    /// A key id is empty or too long.
    InvalidKeyId(String),
    /// A nonce text is malformed.
    InvalidNonce(String),
    /// A failure of the protocol core.
    Core(StateChronicleError),
}

/// An operation that the active profile's rules reject.
#[derive(Debug, Clone, PartialEq, Eq)]
pub struct ProfileError {
    /// What the rules object to.
    pub message: String,
}

/// The rendering of an exceeded size bound.
pub open spec fn size_limit_text(name: Seq<char>, limit: nat, actual: nat) -> Seq<char> {
    "size limit exceeded for `"@ + name + "`: length "@ + decimal(actual) + " exceeds limit "@
        + decimal(limit)
}

/// Renders an exceeded size bound.
pub fn size_limit_message(name: &str, limit: usize, actual: usize) -> (r: String)
    ensures
        r@ == size_limit_text(name@, limit as nat, actual as nat),
{
    let actual_text = decimal_text(actual as u128);
    let limit_text = decimal_text(limit as u128);
    join6(
        "size limit exceeded for `",
        name,
        "`: length ",
        actual_text.as_str(),
        " exceeds limit ",
        limit_text.as_str(),
    )
}

impl StateChronicleError {
    /// The rendering of the error.
    pub open spec fn text(self) -> Seq<char> {
        match self {
            StateChronicleError::SizeLimitExceeded { name, limit, actual } => size_limit_text(
                name@,
                limit as nat,
                actual as nat,
            ),
            StateChronicleError::Canonicalization(m) => "canonicalization failed: "@ + m@,
            StateChronicleError::InvalidDigest(m) => "invalid digest: "@ + m@,
            StateChronicleError::SignatureVerification(m) => "signature verification failed: "@
                + m@,
        }
    }

    /// Renders the error.
    pub fn message(&self) -> (r: String)
        ensures
            r@ == self.text(),
    {
        match self {
            StateChronicleError::SizeLimitExceeded { name, limit, actual } => size_limit_message(
                name.as_str(),
                *limit,
                *actual,
            ),
            StateChronicleError::Canonicalization(m) => join2(
                "canonicalization failed: ",
                m.as_str(),
            ),
            StateChronicleError::InvalidDigest(m) => join2("invalid digest: ", m.as_str()),
            StateChronicleError::SignatureVerification(m) => join2(
                "signature verification failed: ",
                m.as_str(),
            ),
        }
    }
}

impl DomainError {
    /// The rendering of the error.
    pub open spec fn text(self) -> Seq<char> {
        match self {
            DomainError::InvalidId(m) => "invalid id: "@ + m@,
            DomainError::InvalidOperation(m) => "invalid operation: "@ + m@,
            DomainError::InvalidKeyId(m) => "invalid key id: "@ + m@,
            DomainError::InvalidNonce(m) => "invalid nonce: "@ + m@,
            DomainError::Core(inner) => inner.text(),
        }
    }

    /// Renders the error.
    pub fn message(&self) -> (r: String)
        ensures
            r@ == self.text(),
    {
        match self {
            DomainError::InvalidId(m) => join2("invalid id: ", m.as_str()),
            DomainError::InvalidOperation(m) => join2("invalid operation: ", m.as_str()),
            DomainError::InvalidKeyId(m) => join2("invalid key id: ", m.as_str()),
            DomainError::InvalidNonce(m) => join2("invalid nonce: ", m.as_str()),
            DomainError::Core(inner) => inner.message(),
        }
    }
}

/// Accepts a length within a bound.
pub fn check_size(name: &str, limit: usize, actual: usize) -> (r: Result<(), StateChronicleError>)
    ensures
        match r {
            Ok(()) => actual <= limit,
            Err(StateChronicleError::SizeLimitExceeded { name: n, limit: l, actual: a }) => actual
                > limit && n@ == name@ && l == limit && a == actual,
            Err(_) => false,
        },
{
    if actual > limit {
        Err(StateChronicleError::SizeLimitExceeded { name: name.to_owned(), limit, actual })
    } else {
        Ok(())
    }
}

} // verus!
