//! Identifiers.
//!
//! Tenant, subject and resource ids are free-form text. Intent, event and
//! commit ids carry a fixed prefix, and operations and key ids are bounded
//! non-empty text; those are built through checked constructors. The prefixes,
//! the bound on the length and what else makes an id valid are this library's
//! own rules.
use vstd::prelude::*;

use crate::domain::error::DomainError;
use crate::limits::MAX_ID_LENGTH;
use crate::text::{chars_of, join3, same_text};

verus! {

/// Whether a text starts with a prefix.
pub open spec fn has_prefix(text: Seq<char>, prefix: Seq<char>) -> bool {
    prefix.len() <= text.len() && text.take(prefix.len() as int) == prefix
}

/// Whether a text is the prefix followed by at least one character, within
/// the length bound for ids. The rule and its bound are this library's own.
pub open spec fn valid_id(text: Seq<char>, prefix: Seq<char>) -> bool {
    has_prefix(text, prefix) && prefix.len() < text.len() <= MAX_ID_LENGTH
}

/// Whether a text is a bounded non-empty name; the bound is this library's own.
pub open spec fn valid_name(text: Seq<char>) -> bool {
    0 < text.len() <= MAX_ID_LENGTH
}

/// Whether `text` starts with `prefix`.
pub fn starts_with(text: &str, prefix: &str) -> (r: bool)
    ensures
        r == has_prefix(text@, prefix@),
{
    let chars = chars_of(text);
    let wanted = chars_of(prefix);
    if chars.len() < wanted.len() {
        return false;
    }
    let mut i: usize = 0;
    while i < wanted.len()
        invariant
            chars@ == text@,
            wanted@ == prefix@,
            i <= wanted@.len() <= chars@.len(),
            forall|k: int| 0 <= k < i ==> text@[k] == prefix@[k],
        decreases wanted@.len() - i,
    {
        if chars[i] != wanted[i] {
            assert(text@.take(prefix@.len() as int)[i as int] != prefix@[i as int]);
            return false;
        }
        i = i + 1;
    }
    assert(text@.take(prefix@.len() as int) =~= prefix@);
    true
}

/// The number of characters of a text.
pub fn char_count(text: &str) -> (r: usize)
    ensures
        r == text@.len(),
{
    chars_of(text).len()
}

fn checked_id(text: &str, prefix: &str) -> (r: bool)
    ensures
        r == valid_id(text@, prefix@),
{
    let length: usize = char_count(text);
    starts_with(text, prefix) && char_count(prefix) < length && length <= MAX_ID_LENGTH
}

/// A tenant scope.
#[derive(Debug, PartialEq, Eq, Hash)]
pub struct TenantId(pub String);

impl Clone for TenantId {
    fn clone(&self) -> (r: Self)
        ensures
            r == *self,
    {
        TenantId(self.0.clone())
    }
}

impl TenantId {
    /// The id as text.
    pub fn as_str(&self) -> (r: &str)
        ensures
            r@ == self.0@,
    {
        self.0.as_str()
    }

    /// Whether two ids are the same text.
    pub fn same(&self, other: &Self) -> (r: bool)
        ensures
            r == (self.0@ == other.0@),
    {
        self.0 == other.0
    }
}

/// A subject: an account, player or service identity.
#[derive(Debug, PartialEq, Eq, Hash)]
pub struct SubjectId(pub String);

impl Clone for SubjectId {
    fn clone(&self) -> (r: Self)
        ensures
            r == *self,
    {
        SubjectId(self.0.clone())
    }
}

impl SubjectId {
    /// The id as text.
    pub fn as_str(&self) -> (r: &str)
        ensures
            r@ == self.0@,
    {
        self.0.as_str()
    }

    /// Whether two ids are the same text.
    pub fn same(&self, other: &Self) -> (r: bool)
        ensures
            r == (self.0@ == other.0@),
    {
        self.0 == other.0
    }
}

/// A resource within a tenant.
#[derive(Debug, PartialEq, Eq, Hash)]
pub struct ResourceId(pub String);

impl Clone for ResourceId {
    fn clone(&self) -> (r: Self)
        ensures
            r == *self,
    {
        ResourceId(self.0.clone())
    }
}

impl ResourceId {
    /// The id as text.
    pub fn as_str(&self) -> (r: &str)
        ensures
            r@ == self.0@,
    {
        self.0.as_str()
    }

    /// Whether two ids are the same text.
    pub fn same(&self, other: &Self) -> (r: bool)
        ensures
            r == (self.0@ == other.0@),
    {
        self.0 == other.0
    }
}

/// The unique id of an intent.
#[derive(Debug, PartialEq, Eq, Hash)]
pub struct IntentId(pub String);

impl Clone for IntentId {
    fn clone(&self) -> (r: Self)
        ensures
            r == *self,
    {
        IntentId(self.0.clone())
    }
}

impl IntentId {
    /// The id as text.
    pub fn as_str(&self) -> (r: &str)
        ensures
            r@ == self.0@,
    {
        self.0.as_str()
    }

    /// Whether two ids are the same text.
    pub fn same(&self, other: &Self) -> (r: bool)
        ensures
            r == (self.0@ == other.0@),
    {
        self.0 == other.0
    }

    /// Accepts an id that starts with `int_`, has a body and is not too long.
    pub fn new(text: String) -> (r: Result<Self, DomainError>)
        ensures
            match r {
                Ok(id) => valid_id(text@, "int_"@) && id.0 == text,
                Err(DomainError::InvalidId(message)) => !valid_id(text@, "int_"@)
                    && message@ == "intent id `"@ + text@ + "` must start with `int_`"@,
                Err(_) => false,
            },
    {
        if checked_id(text.as_str(), "int_") {
            Ok(IntentId(text))
        } else {
            Err(
                DomainError::InvalidId(
                    join3("intent id `", text.as_str(), "` must start with `int_`"),
                ),
            )
        }
    }
}

/// The unique id of an event.
#[derive(Debug, PartialEq, Eq, Hash)]
pub struct EventId(pub String);

impl Clone for EventId {
    fn clone(&self) -> (r: Self)
        ensures
            r == *self,
    {
        EventId(self.0.clone())
    }
}

impl EventId {
    /// The id as text.
    pub fn as_str(&self) -> (r: &str)
        ensures
            r@ == self.0@,
    {
        self.0.as_str()
    }

    /// Whether two ids are the same text.
    pub fn same(&self, other: &Self) -> (r: bool)
        ensures
            r == (self.0@ == other.0@),
    {
        self.0 == other.0
    }

    /// Accepts an id that starts with `evt_`, has a body and is not too long.
    pub fn new(text: String) -> (r: Result<Self, DomainError>)
        ensures
            match r {
                Ok(id) => valid_id(text@, "evt_"@) && id.0 == text,
                Err(DomainError::InvalidId(message)) => !valid_id(text@, "evt_"@)
                    && message@ == "event id `"@ + text@ + "` must start with `evt_`"@,
                Err(_) => false,
            },
    {
        if checked_id(text.as_str(), "evt_") {
            Ok(EventId(text))
        } else {
            Err(
                DomainError::InvalidId(
                    join3("event id `", text.as_str(), "` must start with `evt_`"),
                ),
            )
        }
    }
}

/// The unique id of a commit.
#[derive(Debug, PartialEq, Eq, Hash)]
pub struct CommitId(pub String);

impl Clone for CommitId {
    fn clone(&self) -> (r: Self)
        ensures
            r == *self,
    {
        CommitId(self.0.clone())
    }
}

impl CommitId {
    /// The id as text.
    pub fn as_str(&self) -> (r: &str)
        ensures
            r@ == self.0@,
    {
        self.0.as_str()
    }

    /// Whether two ids are the same text.
    pub fn same(&self, other: &Self) -> (r: bool)
        ensures
            r == (self.0@ == other.0@),
    {
        self.0 == other.0
    }

    /// Accepts an id that starts with `cmt_`, has a body and is not too long.
    pub fn new(text: String) -> (r: Result<Self, DomainError>)
        ensures
            match r {
                Ok(id) => valid_id(text@, "cmt_"@) && id.0 == text,
                Err(DomainError::InvalidId(message)) => !valid_id(text@, "cmt_"@)
                    && message@ == "commit id `"@ + text@ + "` must start with `cmt_`"@,
                Err(_) => false,
            },
    {
        if checked_id(text.as_str(), "cmt_") {
            Ok(CommitId(text))
        } else {
            Err(
                DomainError::InvalidId(
                    join3("commit id `", text.as_str(), "` must start with `cmt_`"),
                ),
            )
        }
    }
}

/// A profile-defined operation name such as `asset.transfer`.
#[derive(Debug, PartialEq, Eq, Hash)]
pub struct Operation(pub String);

impl Clone for Operation {
    fn clone(&self) -> (r: Self)
        ensures
            r == *self,
    {
        Operation(self.0.clone())
    }
}

impl Operation {
    /// The name as text.
    pub fn as_str(&self) -> (r: &str)
        ensures
            r@ == self.0@,
    {
        self.0.as_str()
    }

    /// Whether two names are the same text.
    pub fn same(&self, other: &Self) -> (r: bool)
        ensures
            r == (self.0@ == other.0@),
    {
        self.0 == other.0
    }

    /// Whether this is the given name.
    pub fn is(&self, name: &str) -> (r: bool)
        ensures
            r == (self.0@ == name@),
    {
        same_text(self.0.as_str(), name)
    }

    /// Accepts a non-empty name that is not too long.
    pub fn new(text: String) -> (r: Result<Self, DomainError>)
        ensures
            match r {
                Ok(name) => valid_name(text@) && name.0 == text,
                Err(DomainError::InvalidOperation(message)) => !valid_name(text@) && message@ == text@,
                Err(_) => false,
            },
    {
        let length: usize = char_count(text.as_str());
        if 0 < length && length <= MAX_ID_LENGTH {
            Ok(Operation(text))
        } else {
            Err(DomainError::InvalidOperation(text))
        }
    }
}

/// The identifier of a signing key.
#[derive(Debug, PartialEq, Eq, Hash)]
pub struct KeyId(pub String);

impl Clone for KeyId {
    fn clone(&self) -> (r: Self)
        ensures
            r == *self,
    {
        KeyId(self.0.clone())
    }
}

impl KeyId {
    /// The name as text.
    pub fn as_str(&self) -> (r: &str)
        ensures
            r@ == self.0@,
    {
        self.0.as_str()
    }

    /// Whether two names are the same text.
    pub fn same(&self, other: &Self) -> (r: bool)
        ensures
            r == (self.0@ == other.0@),
    {
        self.0 == other.0
    }

    /// Whether this is the given name.
    pub fn is(&self, name: &str) -> (r: bool)
        ensures
            r == (self.0@ == name@),
    {
        same_text(self.0.as_str(), name)
    }

    /// Accepts a non-empty name that is not too long.
    pub fn new(text: String) -> (r: Result<Self, DomainError>)
        ensures
            match r {
                Ok(name) => valid_name(text@) && name.0 == text,
                Err(DomainError::InvalidKeyId(message)) => !valid_name(text@) && message@ == text@,
                Err(_) => false,
            },
    {
        let length: usize = char_count(text.as_str());
        if 0 < length && length <= MAX_ID_LENGTH {
            Ok(KeyId(text))
        } else {
            Err(DomainError::InvalidKeyId(text))
        }
    }
}

} // verus!
