//! Events: accepted state transitions.
use vstd::prelude::*;

use crate::domain::ids::{EventId, IntentId, Operation, ResourceId, SubjectId, TenantId};
use crate::domain::intent::{copy_authority, AuthorityProof};
use crate::domain::state::{same_commitment, StateCommitment};
use crate::domain::time::Timestamp;

verus! {

/// The event schema.
pub const EVENT_SCHEMA: &'static str = "statechronicle.event.v0";

/// An accepted state transition.
#[derive(Debug, PartialEq, Eq)]
pub struct Event {
    /// The schema identifier.
    pub schema: String,
    /// The tenant scope.
    pub tenant_id: TenantId,
    /// The unique id.
    pub event_id: EventId,
    /// The intent that asked for the transition.
    pub intent_id: IntentId,
    /// The operation.
    pub operation: Operation,
    /// The resource.
    pub resource_id: ResourceId,
    /// The acting subject.
    pub actor: SubjectId,
    /// The state before.
    pub before: StateCommitment,
    /// The state after.
    pub after: StateCommitment,
    /// The authority bound to the transition.
    pub authority: Option<AuthorityProof>,
    /// The executor that accepted it.
    pub executor: SubjectId,
    /// When it was accepted.
    pub created_at: Timestamp,
}

/// Whether two events have the same content.
pub open spec fn same_event(a: Event, b: Event) -> bool {
    &&& a.schema == b.schema
    &&& a.tenant_id == b.tenant_id
    &&& a.event_id == b.event_id
    &&& a.intent_id == b.intent_id
    &&& a.operation == b.operation
    &&& a.resource_id == b.resource_id
    &&& a.actor == b.actor
    &&& same_commitment(a.before, b.before)
    &&& same_commitment(a.after, b.after)
    &&& a.authority == b.authority
    &&& a.executor == b.executor
    &&& a.created_at == b.created_at
}

impl Clone for Event {
    fn clone(&self) -> (r: Self)
        ensures
            same_event(r, *self),
    {
        Event {
            schema: self.schema.clone(),
            tenant_id: self.tenant_id.clone(),
            event_id: self.event_id.clone(),
            intent_id: self.intent_id.clone(),
            operation: self.operation.clone(),
            resource_id: self.resource_id.clone(),
            actor: self.actor.clone(),
            before: self.before.clone(),
            after: self.after.clone(),
            authority: copy_authority(&self.authority),
            executor: self.executor.clone(),
            created_at: self.created_at,
        }
    }
}

impl Event {
    /// An event with the supported schema.
    pub fn new(
        tenant_id: TenantId,
        event_id: EventId,
        intent_id: IntentId,
        operation: Operation,
        resource_id: ResourceId,
        actor: SubjectId,
        before: StateCommitment,
        after: StateCommitment,
        authority: Option<AuthorityProof>,
        executor: SubjectId,
        created_at: Timestamp,
    ) -> (r: Self)
        ensures
            r.schema@ == EVENT_SCHEMA@,
            r.tenant_id == tenant_id,
            r.event_id == event_id,
            r.intent_id == intent_id,
            r.operation == operation,
            r.resource_id == resource_id,
            r.actor == actor,
            r.before == before,
            r.after == after,
            r.authority == authority,
            r.executor == executor,
            r.created_at == created_at,
    {
        Event {
            schema: EVENT_SCHEMA.to_owned(),
            tenant_id,
            event_id,
            intent_id,
            operation,
            resource_id,
            actor,
            before,
            after,
            authority,
            executor,
            created_at,
        }
    }
}

} // verus!
