use statechronicle::domain::digest::ContentDigest;
use statechronicle::domain::ids::{
    CommitId, EventId, IntentId, Operation, ResourceId, SubjectId, TenantId,
};
use statechronicle::domain::intent::{Intent, Nonce};
use statechronicle::domain::state::{ResourceState, StateProjection, StateType};
use statechronicle::domain::time::{read_timestamp, Timestamp};
use statechronicle::executor::conflict::{
    check_expected_version, check_expiry, check_idempotency_existing, check_owner,
    check_resource_availability, check_tenant_scope,
};
use statechronicle::executor::error::ExecutorError;
use statechronicle::json::{Fields, Value};

const TERMINAL_STATUSES: [&str; 9] = [
    "burned",
    "expired",
    "tombstoned",
    "revoked",
    "redeemed",
    "sold",
    "cancelled",
    "released",
    "refunded",
];

fn s(text: &str) -> Value {
    Value::text(text)
}

fn object(members: &[(&str, Value)]) -> Value {
    Value::object(inputs(members))
}

fn inputs(entries: &[(&str, Value)]) -> Fields {
    let mut fields = Fields::new();
    for (name, value) in entries {
        fields.insert(String::from(*name), value.clone());
    }
    fields
}

fn at(text: &str) -> Timestamp {
    read_timestamp(text).unwrap().0
}

fn op(name: &str) -> Operation {
    Operation::new(String::from(name)).unwrap()
}

fn projection(state_type: StateType, state: Value) -> StateProjection {
    StateProjection {
        tenant_id: TenantId(String::from("tenant.test")),
        resource_id: ResourceId(String::from("asset:sword_001")),
        state_type,
        version: 5,
        last_event_id: EventId::new(String::from("evt_01JZ8X2XRE5ZYW5V9R7VDQBSH4")).unwrap(),
        last_commit_id: CommitId::new(String::from("cmt_01JZ8X5HN3C4PXG5A9FGEWQF5W")).unwrap(),
        state_hash: ContentDigest::new([0u8; 32]),
        state: ResourceState::new(state_type, state),
    }
}

fn asset(status: &str, owner: &str) -> StateProjection {
    projection(
        StateType::UniqueAsset,
        object(&[("owner", s(owner)), ("status", s(status))]),
    )
}

fn sample_intent() -> Intent {
    Intent::new(
        TenantId(String::from("tenant.test")),
        IntentId::new(String::from("int_01JZ8WJ1V6MJ6Y3Z6Z9CA8B2K2")).unwrap(),
        op("asset.transfer"),
        SubjectId(String::from("account:example:player_123")),
        ResourceId(String::from("asset:sword_001")),
        Some(StateType::UniqueAsset),
        5,
        Fields::new(),
        None,
        at("2026-07-14T00:00:00Z"),
        None,
        Nonce::from_bytes(vec![1]),
    )
}

#[test]
fn expected_version_none_with_zero_is_ok() {
    let mut intent = sample_intent();
    intent.expected_version = 0;
    assert!(check_expected_version(&intent, None).is_ok());
}

#[test]
fn expected_version_none_with_positive_is_resource_not_found() {
    let intent = sample_intent();
    assert!(matches!(
        check_expected_version(&intent, None),
        Err(ExecutorError::ResourceNotFound { resource })
        if resource == "asset:sword_001"
    ));
}

#[test]
fn expected_version_mismatch_fails_closed() {
    let intent = sample_intent();
    let current = asset("active", "alice");
    assert!(check_expected_version(&intent, Some(&current)).is_ok());

    let mut stale = sample_intent();
    stale.expected_version = 4;
    assert!(matches!(
        check_expected_version(&stale, Some(&current)),
        Err(ExecutorError::ExpectedVersionMismatch { resource, expected, actual })
        if resource == "asset:sword_001" && expected == 4 && actual == 5
    ));
}

#[test]
fn tenant_scope_empty_fails_closed() {
    let mut intent = sample_intent();
    intent.tenant_id = TenantId(String::new());
    assert!(matches!(
        check_tenant_scope(&intent),
        Err(ExecutorError::TenantScopeMissing)
    ));
    assert!(check_tenant_scope(&sample_intent()).is_ok());
}

#[test]
fn owner_mismatch_fails_closed() {
    let current = asset("active", "alice");
    let inputs = inputs(&[("from_owner", s("mallory"))]);
    let intent = sample_intent();
    assert!(matches!(
        check_owner(&intent, Some(&current), &inputs),
        Err(ExecutorError::ActorMismatch { expected, actual })
        if expected == "alice" && actual == "mallory"
    ));
}

#[test]
fn owner_match_and_missing_input_pass() {
    let current = asset("active", "alice");
    let intent = sample_intent();
    let matching = inputs(&[("from_owner", s("alice"))]);
    assert!(check_owner(&intent, Some(&current), &matching).is_ok());
    assert!(check_owner(&intent, Some(&current), &Fields::new()).is_ok());
    assert!(check_owner(&intent, None, &Fields::new()).is_ok());
}

#[test]
fn subject_held_owner_uses_subject_field() {
    let balance = projection(
        StateType::FungibleBalance,
        object(&[("subject", s("account:example:player_123")), ("balance", s("100")), ("unit", s("gold_minor"))]),
    );
    let intent = sample_intent();
    let inputs = inputs(&[("from_owner", s("other"))]);
    assert!(matches!(
        check_owner(&intent, Some(&balance), &inputs),
        Err(ExecutorError::ActorMismatch { .. })
    ));
}

#[test]
fn resource_availability_active_passes() {
    let current = asset("active", "alice");
    for name in ["asset.transfer", "asset.lock", "asset.burn"] {
        assert!(
            check_resource_availability(&current, &op(name)).is_ok(),
            "{name} should be allowed from active"
        );
    }
}

#[test]
fn resource_availability_locked_blocks_mutations() {
    let current = asset("locked", "alice");
    assert!(
        check_resource_availability(&current, &op("asset.unlock")).is_ok(),
        "unlock escapes locked"
    );
    assert!(matches!(
        check_resource_availability(&current, &op("asset.transfer")),
        Err(ExecutorError::ResourceLocked { resource })
        if resource == "asset:sword_001"
    ));
    assert!(check_resource_availability(&current, &op("asset.restrict")).is_ok());
}

#[test]
fn resource_availability_terminal_blocks_everything() {
    for status in TERMINAL_STATUSES {
        let current = asset(status, "alice");
        assert!(
            check_resource_availability(&current, &op("asset.restore")).is_err(),
            "restore must be blocked from terminal `{status}`"
        );
        assert!(
            check_resource_availability(&current, &op("asset.transfer")).is_err(),
            "transfer must be blocked from terminal `{status}`"
        );
    }
}

#[test]
fn resource_availability_no_status_passes() {
    let stack = projection(
        StateType::ConsumableStack,
        object(&[("subject", s("alice")), ("quantity", s("10")), ("unit", s("arrows"))]),
    );
    assert!(check_resource_availability(&stack, &op("stack.debit")).is_ok());
}

#[test]
fn resource_availability_unknown_status_blocks() {
    let current = asset("weird_state", "alice");
    assert!(matches!(
        check_resource_availability(&current, &op("asset.transfer")),
        Err(ExecutorError::ResourceLocked { .. })
    ));
}

#[test]
fn expiry_checks_against_now() {
    let mut intent = sample_intent();
    intent.expires_at = Some(
        at("2026-07-14T00:05:00Z"),
    );
    let before = at("2026-07-14T00:04:59Z");
    let at = at("2026-07-14T00:05:00Z");
    assert!(check_expiry(&intent, before).is_ok());
    assert!(matches!(
        check_expiry(&intent, at),
        Err(ExecutorError::Expired { intent_id })
        if intent_id == "int_01JZ8WJ1V6MJ6Y3Z6Z9CA8B2K2"
    ));
}

#[test]
fn conflict_intent_without_expiry_never_expires() {
    let intent = sample_intent();
    let far_future = at("2999-01-01T00:00:00Z");
    assert!(check_expiry(&intent, far_future).is_ok());
}

#[test]
fn idempotency_equal_payload_ok_conflict_fails() {
    let existing = sample_intent();
    let mut incoming = sample_intent();
    assert!(check_idempotency_existing(&existing, &incoming).is_ok());

    incoming.inputs = inputs(&[("to_owner", s("bob"))]);
    assert!(matches!(
        check_idempotency_existing(&existing, &incoming),
        Err(ExecutorError::DuplicateIntent { intent_id })
        if intent_id == "int_01JZ8WJ1V6MJ6Y3Z6Z9CA8B2K2"
    ));
}
