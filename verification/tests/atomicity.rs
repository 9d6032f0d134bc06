use statechronicle::domain::digest::ContentDigest;
use statechronicle::domain::event::Event;
use statechronicle::domain::ids::{
    EventId, IntentId, Operation, ResourceId, SubjectId, TenantId,
};
use statechronicle::domain::state::{ResourceState, StateCommitment, StateType};
use statechronicle::domain::time::{read_timestamp, Timestamp};
use statechronicle::executor::atomicity::{
    commitment_amount, validate_batch_consistency, validate_cross_tenant_consistency,
    TenantEventGroup,
};
use statechronicle::executor::error::ExecutorError;
use statechronicle::json::{Fields, Number, Value};

fn s(text: &str) -> Value {
    Value::text(text)
}

fn object(members: &[(&str, Value)]) -> Value {
    Value::object(inputs(members))
}

fn inputs(entries: &[(&str, Value)]) -> Fields {
    let mut fields = Fields::new();
    for (name, value) in entries {
        fields.insert(String::from(*name), value.clone());
    }
    fields
}

fn at(text: &str) -> Timestamp {
    read_timestamp(text).unwrap().0
}

fn digest(text: &str) -> ContentDigest {
    let mut bytes = [0u8; 32];
    for (i, byte) in text.bytes().enumerate() {
        bytes[i] = byte;
    }
    ContentDigest::new(bytes)
}

fn balance_state(payload: Value) -> ResourceState {
    ResourceState::new(StateType::FungibleBalance, payload)
}

fn tenant(name: &str) -> TenantId {
    TenantId(String::from(name))
}

fn event(id: &str, tenant_name: &str, intent: &str) -> Event {
    Event::new(
        tenant(tenant_name),
        EventId::new(format!("evt_{id}")).unwrap(),
        IntentId::new(format!("int_{intent}")).unwrap(),
        Operation::new(String::from("asset.transfer")).unwrap(),
        ResourceId(String::from("asset:sword_001")),
        SubjectId(String::from("account:example:player_123")),
        StateCommitment {
            version: 1,
            state_hash: digest("before"),
            state: balance_state(object(&[])),
        },
        StateCommitment {
            version: 2,
            state_hash: digest("after"),
            state: balance_state(object(&[("owner", s("bob")), ("status", s("active"))])),
        },
        None,
        SubjectId(String::from("service:statechronicle.example.net")),
        at("2026-07-14T00:00:01Z"),
    )
}

#[test]
fn consistent_batch_passes() {
    let events = vec![
        event("a", "acme.game.alpha", "1"),
        event("b", "acme.game.alpha", "2"),
    ];
    assert!(validate_batch_consistency(&events).is_ok());
}

#[test]
fn duplicate_intent_id_fails_closed() {
    let events = vec![
        event("a", "acme.game.alpha", "1"),
        event("b", "acme.game.alpha", "1"),
    ];
    assert!(matches!(
        validate_batch_consistency(&events),
        Err(ExecutorError::AtomicityViolation(message))
        if message.contains("duplicate intent id")
    ));
}

#[test]
fn duplicate_event_id_fails_closed() {
    let events = vec![
        event("a", "acme.game.alpha", "1"),
        event("a", "acme.game.alpha", "2"),
    ];
    assert!(matches!(
        validate_batch_consistency(&events),
        Err(ExecutorError::AtomicityViolation(message))
        if message.contains("duplicate event id")
    ));
}

#[test]
fn mixed_tenants_fail_closed() {
    let events = vec![
        event("a", "acme.game.alpha", "1"),
        event("b", "acme.game.other", "2"),
    ];
    assert!(matches!(
        validate_batch_consistency(&events),
        Err(ExecutorError::AtomicityViolation(message))
        if message.contains("mixed tenant scopes")
    ));
}

#[test]
fn empty_batch_passes() {
    assert!(validate_batch_consistency(&[]).is_ok());
}

/// Builds a `balance.transfer` event for a subject-held resource with the
/// given before/after balances (canonical integer strings).
fn balance_transfer(
    event_id: &str,
    intent: &str,
    subject: &str,
    before: &str,
    after: &str,
) -> Event {
    Event::new(
        tenant("acme.game.alpha"),
        EventId::new(format!("evt_{event_id}")).unwrap(),
        IntentId::new(format!("int_{intent}")).unwrap(),
        Operation::new(String::from("balance.transfer")).unwrap(),
        ResourceId(String::from("currency:gold")),
        SubjectId(String::from(subject)),
        StateCommitment {
            version: 1,
            state_hash: digest("before"),
            state: balance_state(object(&[("subject", s("alice")), ("balance", s(before)), ("unit", s("gold_minor"))])),
        },
        StateCommitment {
            version: 2,
            state_hash: digest("after"),
            state: balance_state(object(&[("subject", s(subject)), ("balance", s(after)), ("unit", s("gold_minor"))])),
        },
        None,
        SubjectId(String::from("service:statechronicle.example.net")),
        at("2026-07-14T00:00:01Z"),
    )
}

#[test]
fn transfer_pair_net_zero_passes() {
    // Source: 100 -> 60 (debit 40). Destination: 0 (create) -> 40 (credit 40).
    let events = vec![
        balance_transfer("src", "t1", "alice", "100", "60"),
        balance_transfer("dst", "t1", "bob", "0", "40"),
    ];
    assert!(validate_batch_consistency(&events).is_ok());
}

#[test]
fn transfer_pair_to_existing_destination_net_zero_passes() {
    // Source: 100 -> 60 (debit 40). Destination: 50 -> 90 (credit 40).
    let events = vec![
        balance_transfer("src", "t1", "alice", "100", "60"),
        balance_transfer("dst", "t1", "bob", "50", "90"),
    ];
    assert!(validate_batch_consistency(&events).is_ok());
}

#[test]
fn transfer_pair_mismatched_amounts_fail_closed() {
    // Source: 100 -> 60 (debit 40). Destination: 0 -> 30 (credit 30).
    let events = vec![
        balance_transfer("src", "t1", "alice", "100", "60"),
        balance_transfer("dst", "t1", "bob", "0", "30"),
    ];
    assert!(matches!(
        validate_batch_consistency(&events),
        Err(ExecutorError::TransferMismatch(message))
        if message.contains("net-zero")
    ));
}

#[test]
fn transfer_pair_two_debits_fail_closed() {
    let events = vec![
        balance_transfer("a", "t1", "alice", "100", "60"),
        balance_transfer("b", "t1", "bob", "50", "10"),
    ];
    assert!(matches!(
        validate_batch_consistency(&events),
        Err(ExecutorError::TransferMismatch(message))
        if message.contains("net-zero")
    ));
}

#[test]
fn non_transfer_multi_event_rejected() {
    let events = vec![
        event("a", "acme.game.alpha", "1"),
        event("b", "acme.game.alpha", "1"),
    ];
    assert!(matches!(
        validate_batch_consistency(&events),
        Err(ExecutorError::AtomicityViolation(message))
        if message.contains("duplicate intent id")
    ));
}

#[test]
fn transfer_pair_with_three_events_rejected() {
    let events = vec![
        balance_transfer("a", "t1", "alice", "100", "60"),
        balance_transfer("b", "t1", "bob", "0", "40"),
        balance_transfer("c", "t1", "carol", "0", "1"),
    ];
    assert!(matches!(
        validate_batch_consistency(&events),
        Err(ExecutorError::AtomicityViolation(message))
        if message.contains("duplicate intent id")
    ));
}

#[test]
fn transfer_pair_different_resources_rejected() {
    let source = balance_transfer("src", "t1", "alice", "100", "60");
    let mut destination = balance_transfer("dst", "t1", "bob", "0", "40");
    destination.resource_id = ResourceId(String::from("currency:silver"));
    assert!(matches!(
        validate_batch_consistency(&[source, destination]),
        Err(ExecutorError::AtomicityViolation(message))
        if message.contains("duplicate intent id")
    ));
}

/// Builds a `balance.transfer` event scoped to an arbitrary tenant, with the
/// given before/after balances (canonical integer strings).
fn transfer_event(
    tenant_name: &str,
    event_id: &str,
    intent: &str,
    subject: &str,
    before: &str,
    after: &str,
) -> Event {
    Event::new(
        tenant(tenant_name),
        EventId::new(format!("evt_{event_id}")).unwrap(),
        IntentId::new(format!("int_{intent}")).unwrap(),
        Operation::new(String::from("balance.transfer")).unwrap(),
        ResourceId(String::from("currency:gold")),
        SubjectId(String::from(subject)),
        StateCommitment {
            version: 1,
            state_hash: digest("before"),
            state: balance_state(object(&[("subject", s("alice")), ("balance", s(before)), ("unit", s("gold_minor"))])),
        },
        StateCommitment {
            version: 2,
            state_hash: digest("after"),
            state: balance_state(object(&[("subject", s(subject)), ("balance", s(after)), ("unit", s("gold_minor"))])),
        },
        None,
        SubjectId(String::from("service:statechronicle.example.net")),
        at("2026-07-14T00:00:01Z"),
    )
}

#[test]
fn cross_tenant_valid_pair_passes() {
    let groups = vec![
        TenantEventGroup {
            tenant: tenant("acme.game.alpha"),
            events: vec![
                transfer_event("acme.game.alpha", "a", "x", "alice", "100", "60"),
                transfer_event("acme.game.alpha", "b", "x", "bob", "0", "40"),
            ],
        },
        TenantEventGroup {
            tenant: tenant("acme.game.beta"),
            events: vec![
                transfer_event("acme.game.beta", "c", "x", "carol", "100", "60"),
                transfer_event("acme.game.beta", "d", "x", "dave", "0", "40"),
            ],
        },
    ];
    assert!(validate_cross_tenant_consistency(&groups).is_ok());
}

#[test]
fn single_tenant_batch_rejected() {
    // Both groups declare the same tenant, so no intent spans two distinct
    // tenants. The batch is not genuinely cross-tenant.
    let groups = vec![
        TenantEventGroup {
            tenant: tenant("acme.game.alpha"),
            events: vec![
                transfer_event("acme.game.alpha", "a", "x", "alice", "100", "60"),
                transfer_event("acme.game.alpha", "b", "x", "bob", "0", "40"),
            ],
        },
        TenantEventGroup {
            tenant: tenant("acme.game.alpha"),
            events: vec![
                transfer_event("acme.game.alpha", "c", "y", "carol", "100", "60"),
                transfer_event("acme.game.alpha", "d", "y", "dave", "0", "40"),
            ],
        },
    ];
    assert!(matches!(
        validate_cross_tenant_consistency(&groups),
        Err(ExecutorError::AtomicityViolation(message))
        if message.contains("no cross-tenant intent linkage")
    ));
}

#[test]
fn partition_mismatch_rejected() {
    // The first group declares alpha but holds beta-scoped events.
    let groups = vec![
        TenantEventGroup {
            tenant: tenant("acme.game.alpha"),
            events: vec![
                transfer_event("acme.game.beta", "a", "x", "alice", "100", "60"),
                transfer_event("acme.game.beta", "b", "x", "bob", "0", "40"),
            ],
        },
        TenantEventGroup {
            tenant: tenant("acme.game.beta"),
            events: vec![
                transfer_event("acme.game.beta", "c", "x", "carol", "100", "60"),
                transfer_event("acme.game.beta", "d", "x", "dave", "0", "40"),
            ],
        },
    ];
    assert!(matches!(
        validate_cross_tenant_consistency(&groups),
        Err(ExecutorError::AtomicityViolation(message))
        if message.contains("tenant mismatch")
    ));
}

#[test]
fn no_linkage_rejected() {
    // Two tenants, but each intent id appears in exactly one tenant.
    let groups = vec![
        TenantEventGroup {
            tenant: tenant("acme.game.alpha"),
            events: vec![
                transfer_event("acme.game.alpha", "a", "x", "alice", "100", "60"),
                transfer_event("acme.game.alpha", "b", "x", "bob", "0", "40"),
            ],
        },
        TenantEventGroup {
            tenant: tenant("acme.game.beta"),
            events: vec![
                transfer_event("acme.game.beta", "c", "y", "carol", "100", "60"),
                transfer_event("acme.game.beta", "d", "y", "dave", "0", "40"),
            ],
        },
    ];
    assert!(matches!(
        validate_cross_tenant_consistency(&groups),
        Err(ExecutorError::AtomicityViolation(message))
        if message.contains("no cross-tenant intent linkage")
    ));
}

#[test]
fn per_tenant_transfer_pair_still_enforced() {
    // Alpha's transfer pair is not net-zero (debit 40 != credit 30); the
    // per-tenant transfer-pair rule still applies across the cross-tenant
    // groups.
    let groups = vec![
        TenantEventGroup {
            tenant: tenant("acme.game.alpha"),
            events: vec![
                transfer_event("acme.game.alpha", "a", "x", "alice", "100", "60"),
                transfer_event("acme.game.alpha", "b", "x", "bob", "0", "30"),
            ],
        },
        TenantEventGroup {
            tenant: tenant("acme.game.beta"),
            events: vec![
                transfer_event("acme.game.beta", "c", "x", "carol", "100", "60"),
                transfer_event("acme.game.beta", "d", "x", "dave", "0", "40"),
            ],
        },
    ];
    assert!(matches!(
        validate_cross_tenant_consistency(&groups),
        Err(ExecutorError::TransferMismatch(message))
        if message.contains("net-zero")
    ));
}

#[test]
fn only_a_missing_amount_reads_as_zero() {
    let holds = |payload: Value| StateCommitment {
        version: 1,
        state_hash: digest("x"),
        state: balance_state(payload),
    };
    let amount = |payload: Value| commitment_amount(&holds(payload), "balance");
    assert_eq!(amount(object(&[])).unwrap().value, 0);
    assert_eq!(amount(object(&[("balance", s("5"))])).unwrap().value, 5);
    let malformed = vec![
        Value::Number(Number::PosInt(5)),
        Value::Null,
        Value::Bool(false),
        s("05"),
        s("-1"),
        s(""),
        object(&[]),
    ];
    for value in malformed {
        match amount(object(&[("balance", value)])) {
            Err(ExecutorError::TransferMismatch(text)) => {
                assert_eq!(text, "malformed `balance` amount");
            }
            _ => panic!("expected a mismatch"),
        }
    }
}
