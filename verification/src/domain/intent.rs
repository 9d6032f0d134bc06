//! Intents and the authority bound to them.
use vstd::prelude::*;

use crate::domain::digest::ContentDigest;
use crate::domain::encoding::{b64u, from_b64u, is_b64u, to_b64u};
use crate::domain::error::DomainError;
use crate::domain::ids::{IntentId, Operation, ResourceId, SubjectId, TenantId};
use crate::domain::state::StateType;
use crate::domain::time::Timestamp;
use crate::json::Fields;

verus! {

/// The supported intent schema.
pub const INTENT_SCHEMA: &'static str = "statechronicle.intent.v0";

/// The kind recorded on a proof of a delegated-authority evaluation.
pub const TRUSTGRANT_EVALUATION_KIND: &'static str = "trustgrant.evaluation";

/// The verdict of an authority evaluation.
#[derive(Debug, Clone, Copy, PartialEq, Eq, Structural)]
pub enum EvaluationResult {
    /// The operation is permitted.
    Allow,
    /// The operation is not permitted.
    Deny,
}

/// How the verdicts of several authorities combine.
#[derive(Debug, Clone, Copy, PartialEq, Eq, Structural)]
pub enum AggregationPolicy {
    /// Every authority must allow.
    RequireAll,
    /// One allowing authority is enough.
    AnyOf,
}

/// The outcome of one authority's evaluation.
#[derive(Debug, Clone, Copy, PartialEq, Eq)]
pub struct TrustGrantOutcome {
    /// The digest of the evaluation.
    pub evaluation_digest: ContentDigest,
    /// The verdict.
    pub result: EvaluationResult,
    /// When the evaluation was made.
    pub evaluated_at: Timestamp,
}

/// The authority bound to an intent or event.
#[derive(Debug, PartialEq, Eq)]
pub struct AuthorityProof {
    /// The kind of proof.
    pub kind: String,
    /// The digest of the evaluation.
    pub evaluation_digest: ContentDigest,
    /// The verdict.
    pub result: EvaluationResult,
    /// When the evaluation was made.
    pub evaluated_at: Timestamp,
}

impl Clone for AuthorityProof {
    fn clone(&self) -> (r: Self)
        ensures
            r == *self,
    {
        AuthorityProof {
            kind: self.kind.clone(),
            evaluation_digest: self.evaluation_digest,
            result: self.result,
            evaluated_at: self.evaluated_at,
        }
    }
}

/// Whether two optional proofs agree in every field.
pub open spec fn same_authority(a: Option<AuthorityProof>, b: Option<AuthorityProof>) -> bool {
    match (a, b) {
        (None, None) => true,
        (Some(x), Some(y)) => x.kind@ == y.kind@ && x.evaluation_digest.bytes@
            == y.evaluation_digest.bytes@ && x.result == y.result && x.evaluated_at
            == y.evaluated_at,
        _ => false,
    }
}

/// A copy of an optional proof.
pub fn copy_authority(authority: &Option<AuthorityProof>) -> (r: Option<AuthorityProof>)
    ensures
        r == *authority,
{
    match authority {
        Some(proof) => Some(proof.clone()),
        None => None,
    }
}

fn authorities_agree(a: &Option<AuthorityProof>, b: &Option<AuthorityProof>) -> (r: bool)
    ensures
        r == same_authority(*a, *b),
{
    match (a, b) {
        (None, None) => true,
        (Some(x), Some(y)) => x.kind == y.kind && x.evaluation_digest.same(&y.evaluation_digest)
            && x.result == y.result && x.evaluated_at == y.evaluated_at,
        _ => false,
    }
}

/// Replay protection: arbitrary bytes chosen by the client.
#[derive(Debug, Clone, PartialEq, Eq)]
pub struct Nonce {
    /// The nonce bytes.
    pub bytes: Vec<u8>,
}

impl Nonce {
    /// The nonce with the given bytes.
    pub fn from_bytes(bytes: Vec<u8>) -> (r: Self)
        ensures
            r.bytes == bytes,
    {
        Nonce { bytes }
    }

    /// The nonce with the given `b64u:` text.
    pub fn from_b64u_str(text: &str) -> (r: Result<Self, DomainError>)
        ensures
            match r {
                Ok(nonce) => text@ == b64u(nonce.bytes@),
                Err(DomainError::InvalidNonce(message)) => !is_b64u(text@) && message@ == text@,
                Err(_) => false,
            },
    {
        match from_b64u(text) {
            Some(bytes) => Ok(Nonce { bytes }),
            None => Err(DomainError::InvalidNonce(text.to_owned())),
        }
    }

    /// The `b64u:` text of the nonce.
    pub fn to_b64u_string(&self) -> (r: String)
        ensures
            r@ == b64u(self.bytes@),
    {
        to_b64u(&self.bytes)
    }

    /// The bytes of the nonce.
    pub fn as_bytes(&self) -> (r: &[u8])
        ensures
            r@ == self.bytes@,
    {
        self.bytes.as_slice()
    }

    /// Whether two nonces have the same bytes.
    pub fn same(&self, other: &Self) -> (r: bool)
        ensures
            r == (self.bytes@ == other.bytes@),
    {
        if self.bytes.len() != other.bytes.len() {
            return false;
        }
        let mut i: usize = 0;
        while i < self.bytes.len()
            invariant
                self.bytes@.len() == other.bytes@.len(),
                i <= self.bytes@.len(),
                forall|k: int| 0 <= k < i ==> self.bytes@[k] == other.bytes@[k],
            decreases self.bytes@.len() - i,
        {
            if self.bytes[i] != other.bytes[i] {
                return false;
            }
            i = i + 1;
        }
        assert(self.bytes@ =~= other.bytes@);
        true
    }
}

/// A request for one state transition.
#[derive(Debug, Clone, PartialEq, Eq)]
pub struct Intent {
    /// The schema identifier.
    pub schema: String,
    /// The tenant scope.
    pub tenant_id: TenantId,
    /// The unique id, which makes retries idempotent.
    pub intent_id: IntentId,
    /// The requested operation.
    pub operation: Operation,
    /// The acting subject.
    pub actor: SubjectId,
    /// The resource to change.
    pub resource_id: ResourceId,
    /// The kind of state, where the profile needs it.
    pub state_type: Option<StateType>,
    /// The version that the actor believes to be current.
    pub expected_version: u64,
    /// The operation's inputs.
    pub inputs: Fields,
    /// The authority that the client presents.
    pub authority: Option<AuthorityProof>,
    /// When the intent was made.
    pub created_at: Timestamp,
    /// When the intent expires, if ever.
    pub expires_at: Option<Timestamp>,
    /// Replay protection.
    pub nonce: Nonce,
}

/// Whether two intents agree in every field.
pub open spec fn same_intent(a: Intent, b: Intent) -> bool {
    &&& a.schema@ == b.schema@
    &&& a.tenant_id.0@ == b.tenant_id.0@
    &&& a.intent_id.0@ == b.intent_id.0@
    &&& a.operation.0@ == b.operation.0@
    &&& a.actor.0@ == b.actor.0@
    &&& a.resource_id.0@ == b.resource_id.0@
    &&& a.state_type == b.state_type
    &&& a.expected_version == b.expected_version
    &&& a.inputs@ == b.inputs@
    &&& same_authority(a.authority, b.authority)
    &&& a.created_at == b.created_at
    &&& a.expires_at == b.expires_at
    &&& a.nonce.bytes@ == b.nonce.bytes@
}

/// Whether an intent's inputs declare a value leg: any of its three members
/// is present.
pub open spec fn value_leg_declared(intent: Intent) -> bool {
    intent.inputs@.contains_key("value_resource"@) || intent.inputs@.contains_key(
        "value_amount"@,
    ) || intent.inputs@.contains_key("value_to_subject"@)
}

impl Intent {
    /// An intent with the supported schema.
    pub fn new(
        tenant_id: TenantId,
        intent_id: IntentId,
        operation: Operation,
        actor: SubjectId,
        resource_id: ResourceId,
        state_type: Option<StateType>,
        expected_version: u64,
        inputs: Fields,
        authority: Option<AuthorityProof>,
        created_at: Timestamp,
        expires_at: Option<Timestamp>,
        nonce: Nonce,
    ) -> (r: Self)
        ensures
            r.schema@ == INTENT_SCHEMA@,
            r.tenant_id == tenant_id,
            r.intent_id == intent_id,
            r.operation == operation,
            r.actor == actor,
            r.resource_id == resource_id,
            r.state_type == state_type,
            r.expected_version == expected_version,
            r.inputs == inputs,
            r.authority == authority,
            r.created_at == created_at,
            r.expires_at == expires_at,
            r.nonce == nonce,
    {
        Intent {
            schema: INTENT_SCHEMA.to_owned(),
            tenant_id,
            intent_id,
            operation,
            actor,
            resource_id,
            state_type,
            expected_version,
            inputs,
            authority,
            created_at,
            expires_at,
            nonce,
        }
    }

    /// Whether two intents agree in every field.
    pub fn same(&self, other: &Intent) -> (r: bool)
        ensures
            r == same_intent(*self, *other),
    {
        let same_state_type = match (self.state_type, other.state_type) {
            (None, None) => true,
            (Some(a), Some(b)) => a == b,
            _ => false,
        };
        let same_expiry = match (self.expires_at, other.expires_at) {
            (None, None) => true,
            (Some(a), Some(b)) => a == b,
            _ => false,
        };
        self.schema == other.schema && self.tenant_id.same(&other.tenant_id)
            && self.intent_id.same(&other.intent_id) && self.operation.same(&other.operation)
            && self.actor.same(&other.actor) && self.resource_id.same(&other.resource_id)
            && same_state_type && self.expected_version == other.expected_version
            && self.inputs.same(&other.inputs) && authorities_agree(
            &self.authority,
            &other.authority,
        ) && self.created_at == other.created_at && same_expiry && self.nonce.same(&other.nonce)
    }

    /// Whether the inputs declare a value leg.
    pub fn declares_value_leg(&self) -> (r: bool)
        ensures
            r == value_leg_declared(*self),
    {
        self.inputs.get("value_resource").is_some() || self.inputs.get("value_amount").is_some()
            || self.inputs.get("value_to_subject").is_some()
    }
}

} // verus!
