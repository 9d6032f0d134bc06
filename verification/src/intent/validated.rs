//! Validated intents.
use vstd::prelude::*;

use crate::amount::{decimal, decimal_text};
use crate::domain::digest::SignatureBlock;
use crate::domain::error::StateChronicleError;
use crate::domain::ids::{IntentId, Operation, ResourceId, SubjectId, TenantId};
use crate::domain::intent::{Intent, INTENT_SCHEMA};
use crate::domain::time::{expired, has_expired, Timestamp};
use crate::intent::error::IntentError;
use crate::intent::parse::size_refused;
use crate::json::members_depth;
use crate::limits::{MAX_ID_LENGTH, MAX_INTENT_BYTES, MAX_JSON_DEPTH};
use crate::text::{chars_of, control_char, has_control_char, join2, join4, same_text};

verus! {

/// The tuple under which an intent is idempotent: replaying the same intent
/// gives the same result, and another intent of the same id is refused.
#[derive(Debug, PartialEq, Eq, Hash)]
pub struct IdempotencyKey {
    /// The tenant scope.
    pub tenant_id: TenantId,
    /// The unique intent id.
    pub intent_id: IntentId,
    /// The acting subject.
    pub actor: SubjectId,
    /// The resource to change.
    pub resource_id: ResourceId,
    /// The requested operation.
    pub operation: Operation,
}

impl Clone for IdempotencyKey {
    fn clone(&self) -> (r: Self)
        ensures
            r == *self,
    {
        IdempotencyKey {
            tenant_id: self.tenant_id.clone(),
            intent_id: self.intent_id.clone(),
            actor: self.actor.clone(),
            resource_id: self.resource_id.clone(),
            operation: self.operation.clone(),
        }
    }
}

impl IdempotencyKey {
    /// The key with the given parts.
    pub fn new(
        tenant_id: TenantId,
        intent_id: IntentId,
        actor: SubjectId,
        resource_id: ResourceId,
        operation: Operation,
    ) -> (r: Self)
        ensures
            r.tenant_id == tenant_id,
            r.intent_id == intent_id,
            r.actor == actor,
            r.resource_id == resource_id,
            r.operation == operation,
    {
        IdempotencyKey { tenant_id, intent_id, actor, resource_id, operation }
    }
}

/// A validated intent with its idempotency key and detached signature.
#[derive(Debug, Clone, PartialEq, Eq)]
pub struct ValidatedIntent {
    /// The intent.
    pub intent: Intent,
    /// The key under which it is idempotent.
    pub idempotency_key: IdempotencyKey,
    /// The detached signature, if any.
    pub signature: Option<SignatureBlock>,
}

/// Whether a key is the one of an intent.
pub open spec fn keys_intent(key: IdempotencyKey, intent: Intent) -> bool {
    key.tenant_id == intent.tenant_id && key.intent_id == intent.intent_id && key.actor
        == intent.actor && key.resource_id == intent.resource_id && key.operation
        == intent.operation
}

/// What is wrong with an identifier, if anything.
pub open spec fn identifier_complaint(name: Seq<char>, value: Seq<char>) -> Option<Seq<char>> {
    if value.len() == 0 {
        Some(name + " identifier must not be empty"@)
    } else if value.len() > MAX_ID_LENGTH {
        Some(name + " identifier exceeds "@ + decimal(MAX_ID_LENGTH as nat) + " characters"@)
    } else if exists|i: int| 0 <= i < value.len() && control_char(#[trigger] value[i]) {
        Some(name + " identifier must not contain control characters"@)
    } else {
        None
    }
}

/// What is wrong with an intent's identifiers, if anything: the first
/// complaint about the tenant, the actor and the resource.
pub open spec fn identifiers_complaint(intent: Intent) -> Option<Seq<char>> {
    if identifier_complaint("tenant"@, intent.tenant_id.0@) is Some {
        identifier_complaint("tenant"@, intent.tenant_id.0@)
    } else if identifier_complaint("actor"@, intent.actor.0@) is Some {
        identifier_complaint("actor"@, intent.actor.0@)
    } else {
        identifier_complaint("resource"@, intent.resource_id.0@)
    }
}

fn check_identifier(name: &str, value: &str) -> (r: Option<String>)
    ensures
        match r {
            Some(complaint) => identifier_complaint(name@, value@) == Some(complaint@),
            None => identifier_complaint(name@, value@) is None,
        },
{
    let length: usize = chars_of(value).len();
    if length == 0 {
        return Some(join2(name, " identifier must not be empty"));
    }
    if length > MAX_ID_LENGTH {
        let limit = decimal_text(MAX_ID_LENGTH as u128);
        return Some(join4(name, " identifier exceeds ", limit.as_str(), " characters"));
    }
    if has_control_char(value) {
        return Some(join2(name, " identifier must not contain control characters"));
    }
    None
}

/// Whether a result refuses a field with the given complaint.
pub open spec fn field_refused<T>(r: Result<T, IntentError>, complaint: Seq<char>) -> bool {
    match r {
        Err(IntentError::InvalidField(message)) => message@ == complaint,
        _ => false,
    }
}

/// What comes of a typed intent whose canonical form has the given size.
pub open spec fn admission(
    r: Result<ValidatedIntent, IntentError>,
    intent: Intent,
    signature: Option<SignatureBlock>,
    canonical_size: Result<usize, StateChronicleError>,
) -> bool {
    if intent.schema@ != INTENT_SCHEMA@ {
        r matches Err(IntentError::InvalidSchema { found, expected }) && found == intent.schema
            && expected@ == INTENT_SCHEMA@
    } else if identifiers_complaint(intent) is Some {
        field_refused(r, identifiers_complaint(intent)->0)
    } else if expired(intent.expires_at, intent.created_at) {
        r matches Err(IntentError::InvalidExpiry(message)) && message@
            == "expires_at must be after created_at"@
    } else if members_depth(intent.inputs.entries@) > MAX_JSON_DEPTH {
        field_refused(
            r,
            "intent input nesting depth exceeds limit "@ + decimal(MAX_JSON_DEPTH as nat),
        )
    } else {
        match canonical_size {
            Err(failure) => r == Err::<ValidatedIntent, IntentError>(
                <IntentError as vstd::std_specs::convert::FromSpec<
                    StateChronicleError,
                >>::from_spec(failure),
            ),
            Ok(size) => if size > MAX_INTENT_BYTES {
                size_refused(r, size as nat)
            } else {
                r matches Ok(validated) && validated.intent == intent && keys_intent(
                    validated.idempotency_key,
                    intent,
                ) && validated.signature == signature
            },
        }
    }
}

impl ValidatedIntent {
    /// Checks a typed intent whose canonical form has the given size.
    pub fn try_from_intent(
        intent: Intent,
        signature: Option<SignatureBlock>,
        canonical_size: Result<usize, StateChronicleError>,
    ) -> (r: Result<Self, IntentError>)
        ensures
            admission(r, intent, signature, canonical_size),
    {
        if !same_text(intent.schema.as_str(), INTENT_SCHEMA) {
            return Err(
                IntentError::InvalidSchema {
                    found: intent.schema,
                    expected: INTENT_SCHEMA.to_owned(),
                },
            );
        }
        if let Some(complaint) = check_identifier("tenant", intent.tenant_id.as_str()) {
            return Err(IntentError::InvalidField(complaint));
        }
        if let Some(complaint) = check_identifier("actor", intent.actor.as_str()) {
            return Err(IntentError::InvalidField(complaint));
        }
        if let Some(complaint) = check_identifier("resource", intent.resource_id.as_str()) {
            return Err(IntentError::InvalidField(complaint));
        }
        if has_expired(intent.expires_at, intent.created_at) {
            return Err(
                IntentError::InvalidExpiry("expires_at must be after created_at".to_owned()),
            );
        }
        if intent.inputs.depth() > MAX_JSON_DEPTH {
            let limit = decimal_text(MAX_JSON_DEPTH as u128);
            return Err(
                IntentError::InvalidField(
                    join2("intent input nesting depth exceeds limit ", limit.as_str()),
                ),
            );
        }
        match canonical_size {
            Err(failure) => Err(IntentError::from(failure)),
            Ok(size) => if size > MAX_INTENT_BYTES {
                Err(
                    IntentError::SizeLimitExceeded {
                        name: "intent".to_owned(),
                        limit: MAX_INTENT_BYTES,
                        actual: size,
                    },
                )
            } else {
                Ok(Self::from_intent(intent, signature))
            },
        }
    }

    /// Wraps an intent that is known to be sound.
    pub fn from_intent(intent: Intent, signature: Option<SignatureBlock>) -> (r: Self)
        ensures
            r.intent == intent,
            keys_intent(r.idempotency_key, intent),
            r.signature == signature,
    {
        let idempotency_key = IdempotencyKey::new(
            intent.tenant_id.clone(),
            intent.intent_id.clone(),
            intent.actor.clone(),
            intent.resource_id.clone(),
            intent.operation.clone(),
        );
        ValidatedIntent { intent, idempotency_key, signature }
    }

    /// Whether the intent has expired at `now`; one without expiry never has.
    pub fn is_expired(&self, now: Timestamp) -> (r: bool)
        ensures
            r == expired(self.intent.expires_at, now),
    {
        has_expired(self.intent.expires_at, now)
    }
}

} // verus!
