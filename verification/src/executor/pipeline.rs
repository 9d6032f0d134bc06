//! Rules that the execution pipeline applies between its stages.
use vstd::prelude::*;

use crate::domain::ids::{Operation, SubjectId};
use crate::domain::intent::Intent;
use crate::domain::state::{ResourceState, StateContent, StateProjection, StateType};
use crate::executor::error::ExecutorError;
use crate::executor::transition::refused;
use crate::json::{as_text, lookup, Fields, Json, Value};
use crate::ports::errors::{IntentStoreError, TransactionManagerError, TrustGrantError};

verus! {

/// The subject under which a resource is first looked up: the acting subject
/// for subject-held types, nothing for owner-based types.
pub open spec fn lookup_subject(intent: Intent, state_type: StateType) -> Option<SubjectId> {
    if state_type.subject_held() {
        Some(intent.actor)
    } else {
        None
    }
}

/// The state before a resource exists.
pub open spec fn absent_state(state_type: StateType) -> StateContent {
    StateContent { state_type, payload: Json::Object(Map::empty()) }
}

/// The subject that holds a resource: the one that the state names, else the
/// acting subject; nothing for owner-based types.
pub open spec fn holder_of(
    current: Option<&StateProjection>,
    intent: Intent,
    state_type: StateType,
) -> Option<Seq<char>> {
    if !state_type.subject_held() {
        None
    } else {
        match current {
            Some(projection) => match projection.state@.subject() {
                Some(subject) => if subject.len() > 0 {
                    Some(subject)
                } else {
                    Some(intent.actor.0@)
                },
                None => Some(intent.actor.0@),
            },
            None => Some(intent.actor.0@),
        }
    }
}

/// Whether an operation moves an amount between two holders.
pub open spec fn transfers(op: Seq<char>) -> bool {
    op == "stack.transfer"@ || op == "balance.transfer"@
}

/// The named destination of a transfer.
pub open spec fn destination_in(inputs: Map<Seq<char>, Json>) -> Option<Seq<char>> {
    match as_text(lookup(inputs, "to_subject"@)) {
        Some(subject) => if subject.len() > 0 {
            Some(subject)
        } else {
            None
        },
        None => None,
    }
}

/// Whether an error is the report of an intent store failure.
pub open spec fn intent_store_report(
    error: ExecutorError,
    failure: IntentStoreError,
    intent_id: Seq<char>,
) -> bool {
    match (failure, error) {
        (IntentStoreError::Duplicate, ExecutorError::DuplicateIntent { intent_id: id }) => id@
            == intent_id,
        (IntentStoreError::Unavailable(message), ExecutorError::Store(text)) => text == message,
        _ => false,
    }
}

/// The report of a failed authority evaluation.
pub open spec fn trustgrant_report(failure: TrustGrantError) -> ExecutorError {
    match failure {
        TrustGrantError::Denied => ExecutorError::AuthorityDenied,
        TrustGrantError::Stale => ExecutorError::AuthorityStale,
        TrustGrantError::Unavailable(message) => ExecutorError::AuthorityUnavailable(message),
    }
}

/// Whether an error is a store failure with the given text.
pub open spec fn store_report(error: ExecutorError, text: Seq<char>) -> bool {
    match error {
        ExecutorError::Store(message) => message@ == text,
        _ => false,
    }
}

/// The subject under which a resource is first looked up.
pub fn subject_for(intent: &Intent, state_type: StateType) -> (r: Option<&SubjectId>)
    ensures
        match lookup_subject(*intent, state_type) {
            Some(subject) => r is Some && *r->0 == subject,
            None => r is None,
        },
{
    if state_type.is_subject_held() {
        Some(&intent.actor)
    } else {
        None
    }
}

/// The state before a resource exists: a payload without members, of the
/// given type.
pub fn empty_state_for(state_type: StateType) -> (r: ResourceState)
    ensures
        r@ == absent_state(state_type),
{
    ResourceState::new(state_type, Value::object(Fields::new()))
}

/// The subject that holds a resource.
pub fn holder_for(
    current: Option<&StateProjection>,
    intent: &Intent,
    state_type: StateType,
) -> (r: Option<SubjectId>)
    ensures
        match holder_of(current, *intent, state_type) {
            Some(holder) => r is Some && (r->0).0@ == holder,
            None => r is None,
        },
{
    if !state_type.is_subject_held() {
        return None;
    }
    match current {
        Some(projection) => match projection.state.subject() {
            Some(subject) => if subject.is_empty() {
                Some(intent.actor.clone())
            } else {
                Some(SubjectId(subject.to_owned()))
            },
            None => Some(intent.actor.clone()),
        },
        None => Some(intent.actor.clone()),
    }
}

/// Whether an operation moves an amount between two holders.
pub fn is_transfer_operation(operation: &Operation) -> (r: bool)
    ensures
        r == transfers(operation.0@),
{
    operation.is("stack.transfer") || operation.is("balance.transfer")
}

/// The named destination of a transfer.
pub fn destination_holder(inputs: &Fields) -> (r: Result<SubjectId, ExecutorError>)
    ensures
        match destination_in(inputs@) {
            Some(subject) => r is Ok && (r->Ok_0).0@ == subject,
            None => refused(r, "missing input `to_subject`"@),
        },
{
    match inputs.get("to_subject") {
        Some(value) => match value.as_str() {
            Some(subject) => {
                if !subject.is_empty() {
                    return Ok(SubjectId(subject.to_owned()));
                }
            },
            None => {},
        },
        None => {},
    }
    Err(ExecutorError::TransitionInvalid("missing input `to_subject`".to_owned()))
}

/// Reports an intent store failure.
pub fn map_intent_store_error(error: IntentStoreError, intent_id: &str) -> (r: ExecutorError)
    ensures
        intent_store_report(r, error, intent_id@),
{
    match error {
        IntentStoreError::Duplicate => {
            ExecutorError::DuplicateIntent { intent_id: intent_id.to_owned() }
        },
        IntentStoreError::Unavailable(message) => ExecutorError::Store(message),
    }
}

/// Reports a failed authority evaluation.
pub fn map_trustgrant_error(error: TrustGrantError) -> (r: ExecutorError)
    ensures
        r == trustgrant_report(error),
{
    match error {
        TrustGrantError::Denied => ExecutorError::AuthorityDenied,
        TrustGrantError::Stale => ExecutorError::AuthorityStale,
        TrustGrantError::Unavailable(message) => ExecutorError::AuthorityUnavailable(message),
    }
}

/// Reports a transaction coordinator failure.
pub fn map_transaction_manager_error(error: &TransactionManagerError) -> (r: ExecutorError)
    ensures
        store_report(r, error.text()),
{
    ExecutorError::Store(error.message())
}

} // verus!
