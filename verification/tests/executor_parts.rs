use statechronicle::domain::digest::ContentDigest;
use statechronicle::domain::error::{DomainError, StateChronicleError};
use statechronicle::domain::ids::{
    CommitId, EventId, IntentId, Operation, ResourceId, SubjectId, TenantId,
};
use statechronicle::domain::intent::{
    AuthorityProof, EvaluationResult, Intent, Nonce, TrustGrantOutcome, TRUSTGRANT_EVALUATION_KIND,
};
use statechronicle::domain::state::{ResourceState, StateProjection, StateType};
use statechronicle::domain::time::{read_timestamp, Timestamp};
use statechronicle::executor::error::ExecutorError;
use statechronicle::executor::pipeline::{
    destination_holder, holder_for, is_transfer_operation, map_intent_store_error,
    map_trustgrant_error, subject_for,
};
use statechronicle::json::{Fields, Value};
use statechronicle::limits::MAX_INTENT_BYTES;
use statechronicle::ports::errors::{IntentStoreError, TrustGrantError};

fn s(text: &str) -> Value {
    Value::text(text)
}

fn object(members: &[(&str, Value)]) -> Value {
    Value::object(inputs(members))
}

fn inputs(entries: &[(&str, Value)]) -> Fields {
    let mut fields = Fields::new();
    for (name, value) in entries {
        fields.insert(String::from(*name), value.clone());
    }
    fields
}

fn at(text: &str) -> Timestamp {
    read_timestamp(text).unwrap().0
}

fn digest(text: &str) -> ContentDigest {
    let mut bytes = [0u8; 32];
    for (i, byte) in text.bytes().enumerate() {
        bytes[i] = byte;
    }
    ContentDigest::new(bytes)
}

#[test]
fn error_size_limit_exceeded_display_mentions_name_and_bounds() {
    let error = ExecutorError::SizeLimitExceeded {
        name: String::from("intent"),
        limit: MAX_INTENT_BYTES,
        actual: MAX_INTENT_BYTES.saturating_add(1),
    };
    let rendered = error.message();
    assert!(rendered.contains("intent"));
    assert!(rendered.contains("size limit exceeded"));
    assert!(rendered.contains(&MAX_INTENT_BYTES.to_string()));
}

#[test]
fn error_state_chronicle_size_limit_converts_to_size_limit() {
    let source = StateChronicleError::SizeLimitExceeded {
        name: String::from("intent"),
        limit: 8,
        actual: 9,
    };
    let converted = ExecutorError::from(source);
    assert!(matches!(
        converted,
        ExecutorError::SizeLimitExceeded { name, limit, actual }
        if name == "intent" && limit == 8 && actual == 9
    ));
}

#[test]
fn error_other_state_chronicle_errors_map_to_domain() {
    let source = StateChronicleError::SignatureVerification(String::from("boom"));
    let converted = ExecutorError::from(source);
    assert!(matches!(
        converted,
        ExecutorError::Domain(DomainError::Core(..))
    ));
}

#[test]
fn error_error_display_messages() {
    assert_eq!(
        ExecutorError::Expired {
            intent_id: String::from("int_abc"),
        }
        .message(),
        "intent `int_abc` expired before acceptance"
    );
    assert_eq!(
        ExecutorError::DuplicateIntent {
            intent_id: String::from("int_abc"),
        }
        .message(),
        "duplicate intent id `int_abc` with different payload"
    );
    assert_eq!(
        ExecutorError::ExpectedVersionMismatch {
            resource: String::from("asset:sword_001"),
            expected: 5,
            actual: 6,
        }
        .message(),
        "expected version mismatch for `asset:sword_001`: expected 5, actual 6"
    );
    assert_eq!(
        ExecutorError::TenantScopeMissing.message(),
        "intent has no tenant scope"
    );
    assert_eq!(
        ExecutorError::TenantNotFound {
            tenant: String::from("acme.game.alpha"),
        }
        .message(),
        "tenant `acme.game.alpha` not found"
    );
    assert_eq!(
        ExecutorError::ResourceNotFound {
            resource: String::from("asset:sword_001"),
        }
        .message(),
        "resource `asset:sword_001` not found"
    );
    assert_eq!(
        ExecutorError::AuthorityDenied.message(),
        "authority evaluation denied"
    );
    assert_eq!(
        ExecutorError::AuthorityStale.message(),
        "authority proof stale or revoked"
    );
    assert_eq!(
        ExecutorError::AuthorityUnavailable(String::from("down")).message(),
        "authority source unavailable: down"
    );
    assert_eq!(
        ExecutorError::AuthorityMissing {
            operation: String::from("asset.transfer"),
        }
        .message(),
        "authority binding required for operation `asset.transfer`"
    );
    assert_eq!(
        ExecutorError::ActorMismatch {
            expected: String::from("alice"),
            actual: String::from("mallory"),
        }
        .message(),
        "actor mismatch: expected `alice`, got `mallory`"
    );
    assert_eq!(
        ExecutorError::ResourceLocked {
            resource: String::from("asset:sword_001"),
        }
        .message(),
        "resource `asset:sword_001` is locked, burned, revoked, or escrowed"
    );
    assert_eq!(
        ExecutorError::TransitionInvalid(String::from("unknown operation")).message(),
        "invalid transition: unknown operation"
    );
    assert_eq!(
        ExecutorError::AtomicityViolation(String::from("partial commit")).message(),
        "atomicity violation: partial commit"
    );
    assert_eq!(
        ExecutorError::ActorAuthenticationFailed(String::from("bad signature")).message(),
        "actor authentication failed: bad signature"
    );
    assert_eq!(
        ExecutorError::TransferMismatch(String::from("net-zero violated")).message(),
        "transfer mismatch: net-zero violated"
    );
    assert_eq!(
        ExecutorError::Store(String::from("db down")).message(),
        "store error: db down"
    );
    assert_eq!(
        ExecutorError::StateTypeRequired.message(),
        "intent requires a state_type"
    );
}

#[test]
fn subject_for_covers_subject_held_types() {
    let intent = sample_intent();
    assert!(subject_for(&intent, StateType::ConsumableStack).is_some());
    assert!(subject_for(&intent, StateType::FungibleBalance).is_some());
    assert!(subject_for(&intent, StateType::Entitlement).is_some());
    assert!(subject_for(&intent, StateType::MeteredResource).is_some());
    assert!(subject_for(&intent, StateType::UniqueAsset).is_none());
    assert!(subject_for(&intent, StateType::Listing).is_none());
    assert!(subject_for(&intent, StateType::Escrow).is_none());
}

#[test]
fn intent_store_duplicate_maps_to_duplicate_intent() {
    let error = map_intent_store_error(
        IntentStoreError::Duplicate,
        "int_01JZ8WJ1V6MJ6Y3Z6Z9CA8B2K2",
    );
    assert!(matches!(
        error,
        ExecutorError::DuplicateIntent { intent_id }
        if intent_id == "int_01JZ8WJ1V6MJ6Y3Z6Z9CA8B2K2"
    ));
}

#[test]
fn intent_store_unavailable_maps_to_store() {
    let error = map_intent_store_error(
        IntentStoreError::Unavailable(String::from("db down")),
        "int_01JZ8WJ1V6MJ6Y3Z6Z9CA8B2K2",
    );
    assert!(matches!(error, ExecutorError::Store(message) if message == "db down"));
}

#[test]
fn trustgrant_errors_map_fail_closed() {
    assert!(matches!(
        map_trustgrant_error(TrustGrantError::Denied),
        ExecutorError::AuthorityDenied
    ));
    assert!(matches!(
        map_trustgrant_error(TrustGrantError::Stale),
        ExecutorError::AuthorityStale
    ));
    assert!(matches!(
        map_trustgrant_error(TrustGrantError::Unavailable(String::from("down"))),
        ExecutorError::AuthorityUnavailable(message) if message == "down"
    ));
}

#[test]
fn authority_proof_carries_outcome_evaluated_at() {
    let evaluated_at = at("2026-07-14T00:00:00Z");
    let outcome = TrustGrantOutcome {
        evaluation_digest: digest("evaluation"),
        result: EvaluationResult::Allow,
        evaluated_at,
    };
    // Mirror the §18.1 step 11 wiring so any future drift in the mapping
    // is caught here.
    let proof = AuthorityProof {
        kind: String::from(TRUSTGRANT_EVALUATION_KIND),
        evaluation_digest: outcome.evaluation_digest,
        result: EvaluationResult::Allow,
        evaluated_at: outcome.evaluated_at,
    };
    assert_eq!(proof.evaluated_at, evaluated_at);
}

fn sample_intent() -> Intent {
    Intent::new(
        TenantId(String::from("acme.game.alpha")),
        IntentId::new(String::from("int_01JZ8WJ1V6MJ6Y3Z6Z9CA8B2K2")).unwrap(),
        Operation::new(String::from("asset.transfer")).unwrap(),
        SubjectId(String::from("account:example:player_123")),
        ResourceId(String::from("asset:sword_001")),
        Some(StateType::UniqueAsset),
        41,
        Fields::new(),
        None,
        at("2026-07-14T00:00:00Z"),
        None,
        Nonce::from_bytes(vec![1]),
    )
}

fn held_projection(state_type: StateType, subject: &str) -> StateProjection {
    StateProjection {
        tenant_id: TenantId(String::from("acme.game.alpha")),
        resource_id: ResourceId(String::from("balance:gold")),
        state_type,
        version: 3,
        last_event_id: EventId::new(String::from("evt_01JZ8X2XRE5ZYW5V9R7VDQBSH4")).unwrap(),
        last_commit_id: CommitId::new(String::from("cmt_01JZ8X5HN3C4PXG5A9FGEWQF5W")).unwrap(),
        state_hash: ContentDigest::new([0u8; 32]),
        state: ResourceState::new(
            state_type,
            object(&[("subject", s(subject)), ("balance", s("100")), ("unit", s("gold_minor"))]),
        ),
    }
}

#[test]
fn holder_for_prefers_projection_subject_over_actor() {
    let intent = sample_intent();
    // The projection's subject is authoritative once a resource exists,
    // even when it differs from the acting actor.
    let current = held_projection(StateType::FungibleBalance, "account:example:player_456");
    let holder = holder_for(Some(&current), &intent, StateType::FungibleBalance).unwrap();
    assert_eq!(holder.0, "account:example:player_456");
}

#[test]
fn holder_for_falls_back_to_actor_on_create() {
    let intent = sample_intent();
    let holder = holder_for(None, &intent, StateType::FungibleBalance).unwrap();
    assert_eq!(holder, intent.actor);
}

#[test]
fn holder_for_is_none_for_owner_based_types() {
    let intent = sample_intent();
    let current = held_projection(StateType::FungibleBalance, "account:example:player_123");
    assert!(holder_for(Some(&current), &intent, StateType::UniqueAsset).is_none());
    assert!(holder_for(None, &intent, StateType::Listing).is_none());
}

#[test]
fn is_transfer_operation_detects_transfers_only() {
    assert!(is_transfer_operation(
        &Operation::new(String::from("stack.transfer")).unwrap()
    ));
    assert!(is_transfer_operation(
        &Operation::new(String::from("balance.transfer")).unwrap()
    ));
    assert!(!is_transfer_operation(
        &Operation::new(String::from("stack.debit")).unwrap()
    ));
    assert!(!is_transfer_operation(
        &Operation::new(String::from("asset.transfer")).unwrap()
    ));
}

#[test]
fn destination_holder_reads_to_subject() {
    let inputs = inputs(&[("to_subject", s("bob"))]);
    assert_eq!(destination_holder(&inputs).unwrap().0, "bob");
    assert!(destination_holder(&Fields::new()).is_err());
}
