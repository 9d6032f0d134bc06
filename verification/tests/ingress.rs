use statechronicle::domain::digest::{ContentDigest, Signature, SignatureAlg, SignatureBlock};
use statechronicle::domain::event::Event;
use statechronicle::domain::ids::{
    EventId, IntentId, KeyId, Operation, ResourceId, SubjectId, TenantId,
};
use statechronicle::domain::intent::{Intent, Nonce};
use statechronicle::domain::state::{ResourceState, StateCommitment, StateType};
use statechronicle::domain::time::{read_timestamp, Timestamp};
use statechronicle::executor::batch::BatchStep;
use statechronicle::executor::error::{ExecutorBuildError, ExecutorError, PortsBuildError};
use statechronicle::executor::ingress::{
    check_components, check_ports, enter, enter_batch, AdmissionStep, Ingress, IngressStep,
    PlayerBatchItem, Route,
};
use statechronicle::executor::served::{serve, IngressReplies};
use statechronicle::json::{Fields, Value};
use statechronicle::ports::authorization::AuthenticatedPrincipal;
use statechronicle::ports::errors::AuthorizationError;
use statechronicle::ports::key_registry::{
    KeyRecord, KeyRegistryError, KeyStatus, MemoryKeyRegistry,
};

fn at(text: &str) -> Timestamp {
    read_timestamp(text).unwrap().0
}

fn tenant(name: &str) -> TenantId {
    TenantId(String::from(name))
}

fn intent(id: &str, actor: &str) -> Intent {
    Intent::new(
        tenant("game"),
        IntentId::new(format!("int_{}", id)).unwrap(),
        Operation(String::from("asset.transfer")),
        SubjectId(String::from(actor)),
        ResourceId(String::from("asset:sword")),
        Some(StateType::UniqueAsset),
        1,
        Fields::new(),
        None,
        at("2026-01-02T00:00:00Z"),
        None,
        Nonce::from_bytes(vec![1]),
    )
}

fn principal(subject: &str, scope: &str) -> AuthenticatedPrincipal {
    AuthenticatedPrincipal {
        subject: SubjectId(String::from(subject)),
        credential_id: String::from("session-1"),
        tenant: tenant(scope),
    }
}

fn signature(key: &str) -> SignatureBlock {
    SignatureBlock {
        alg: SignatureAlg::Ed25519,
        key_id: KeyId(String::from(key)),
        sig: Signature { bytes: [0u8; 64] },
    }
}

fn emitted() -> Event {
    let commitment = |version: u64| StateCommitment {
        version,
        state_hash: ContentDigest::new([0u8; 32]),
        state: ResourceState::new(StateType::UniqueAsset, Value::object(Fields::new())),
    };
    Event::new(
        tenant("game"),
        EventId(String::from("evt_1")),
        IntentId(String::from("int_1")),
        Operation(String::from("asset.transfer")),
        ResourceId(String::from("asset:sword")),
        SubjectId(String::from("alice")),
        commitment(1),
        commitment(2),
        None,
        SubjectId(String::from("service:example")),
        at("2026-01-02T00:00:00Z"),
    )
}

/// The registry holds one key of alice for transfers.
fn registry() -> MemoryKeyRegistry {
    let mut registry = MemoryKeyRegistry::new();
    registry
        .register(KeyRecord {
            key_id: KeyId(String::from("key_alice")),
            tenant: tenant("game"),
            subject: Some(SubjectId(String::from("alice"))),
            operations: vec![Operation(String::from("asset.transfer"))],
            valid_from: at("2026-01-01T00:00:00Z"),
            valid_until: None,
            status: KeyStatus::Active,
        })
        .unwrap();
    registry
}

struct Outside {
    decision: Result<(), AuthorizationError>,
    outcome: Result<usize, ExecutorError>,
    sink: Result<(), String>,
}

fn open_world() -> Outside {
    Outside { decision: Ok(()), outcome: Ok(1), sink: Ok(()) }
}

/// Runs one request and lists the outside work.
fn drive(
    run: Ingress,
    outside: Outside,
) -> (Result<Vec<Event>, ExecutorError>, Vec<&'static str>) {
    let registry = registry();
    let mut log = Vec::new();
    let mut step = enter(run);
    loop {
        step = match step {
            IngressStep::ResolveKey(wait) => {
                log.push("key");
                let query = wait.query();
                let resolved = registry
                    .resolve_intent_key(
                        query.tenant,
                        query.subject,
                        query.key_id,
                        query.operation,
                        query.at,
                    )
                    .map(|_record| ());
                wait.resume(resolved)
            }
            IngressStep::Authorize(wait) => {
                log.push("authorize");
                assert_eq!(wait.context().resource.as_str(), "asset:sword");
                wait.resume(match &outside.decision {
                    Ok(()) => Ok(()),
                    Err(_) => Err(AuthorizationError::Denied),
                })
            }
            IngressStep::Execute(wait) => {
                log.push(if wait.persist_intent() { "execute+claim" } else { "execute" });
                wait.resume(match &outside.outcome {
                    Ok(count) => Ok((0..*count).map(|_| emitted()).collect()),
                    Err(error) => Err(error.clone()),
                })
            }
            IngressStep::Persist(wait) => {
                log.push("persist");
                assert_eq!(wait.events().len(), 1);
                wait.resume(outside.sink.clone())
            }
            IngressStep::Done(result) => return (result, log),
        };
    }
}

fn request<'a>(
    route: Route,
    intent: &'a Intent,
    signature: Option<&'a SignatureBlock>,
    principal: &'a AuthenticatedPrincipal,
) -> Ingress<'a> {
    Ingress { route, intent, signature, principal }
}

const UNSIGNED: &str = "player mutation requires a detached intent signature";
const UNBOUND: &str = "authenticated principal is not bound to intent actor and tenant";

fn authentication_failure(result: Result<Vec<Event>, ExecutorError>) -> String {
    match result {
        Err(ExecutorError::ActorAuthenticationFailed(detail)) => detail,
        _ => panic!("expected a failed authentication"),
    }
}

#[test]
fn each_route_does_its_outside_work_in_order() {
    let intent = intent("1", "alice");
    let alice = principal("alice", "game");
    let block = signature("key_alice");
    for (route, expected) in [
        (Route::Authenticated, vec!["authorize", "execute+claim"]),
        (Route::Player, vec!["authorize", "execute+claim"]),
        (Route::PlayerDurable, vec!["authorize", "execute", "persist"]),
        (Route::PlayerKeyed, vec!["key", "authorize", "execute+claim"]),
        (Route::PlayerDurableKeyed, vec!["key", "authorize", "execute", "persist"]),
    ] {
        let (result, log) = drive(request(route, &intent, Some(&block), &alice), open_world());
        assert_eq!(result.unwrap().len(), 1);
        assert_eq!(log, expected);
    }
}

#[test]
fn player_routes_need_a_signature() {
    let intent = intent("1", "alice");
    let alice = principal("alice", "game");
    for route in [
        Route::Player,
        Route::PlayerDurable,
        Route::PlayerKeyed,
        Route::PlayerDurableKeyed,
    ] {
        let (result, log) = drive(request(route, &intent, None, &alice), open_world());
        assert_eq!(authentication_failure(result), UNSIGNED);
        assert!(log.is_empty());
    }
    let (result, _log) =
        drive(request(Route::Authenticated, &intent, None, &alice), open_world());
    assert!(result.is_ok());
}

#[test]
fn a_principal_acts_for_itself_in_its_own_tenant() {
    let intent = intent("1", "alice");
    let block = signature("key_alice");
    for stranger in [principal("mallory", "game"), principal("alice", "elsewhere")] {
        for route in [Route::Authenticated, Route::Player, Route::PlayerDurable] {
            let (result, log) =
                drive(request(route, &intent, Some(&block), &stranger), open_world());
            assert_eq!(authentication_failure(result), UNBOUND);
            assert!(log.is_empty());
        }
    }
}

#[test]
fn a_denied_request_is_not_executed() {
    let intent = intent("1", "alice");
    let alice = principal("alice", "game");
    let block = signature("key_alice");
    for route in [Route::Authenticated, Route::Player, Route::PlayerDurable] {
        let mut outside = open_world();
        outside.decision = Err(AuthorizationError::Denied);
        let (result, log) = drive(request(route, &intent, Some(&block), &alice), outside);
        assert_eq!(authentication_failure(result), AuthorizationError::Denied.message());
        assert_eq!(log, vec!["authorize"]);
    }
}

#[test]
fn an_untrusted_key_is_refused_before_authorization() {
    let intent = intent("1", "alice");
    let alice = principal("alice", "game");
    let block = signature("key_of_nobody");
    for route in [Route::PlayerKeyed, Route::PlayerDurableKeyed] {
        let (result, log) = drive(request(route, &intent, Some(&block), &alice), open_world());
        assert_eq!(authentication_failure(result), KeyRegistryError::NotFound.message());
        assert_eq!(log, vec!["key"]);
    }
}

#[test]
fn durable_routes_return_only_what_was_persisted() {
    let intent = intent("1", "alice");
    let alice = principal("alice", "game");
    let block = signature("key_alice");

    let mut outside = open_world();
    outside.sink = Err(String::from("disk full"));
    let (result, _log) =
        drive(request(Route::PlayerDurable, &intent, Some(&block), &alice), outside);
    assert!(matches!(result, Err(ExecutorError::Store(detail)) if detail == "disk full"));

    let mut outside = open_world();
    outside.outcome = Err(ExecutorError::StateTypeRequired);
    let (result, log) =
        drive(request(Route::PlayerDurable, &intent, Some(&block), &alice), outside);
    assert!(matches!(result, Err(ExecutorError::StateTypeRequired)));
    assert_eq!(log, vec!["authorize", "execute"]);

    let mut outside = open_world();
    outside.outcome = Ok(0);
    let (result, log) =
        drive(request(Route::PlayerDurable, &intent, Some(&block), &alice), outside);
    assert!(result.unwrap().is_empty());
    assert_eq!(log, vec!["authorize", "execute"]);
}

#[test]
fn mutations_are_served_as_they_are_driven() {
    let intent = intent("1", "alice");
    let alice = principal("alice", "game");
    let mallory = principal("mallory", "game");
    let block = signature("key_alice");
    let replies = |resolved: bool, decided: bool, stored: bool| IngressReplies {
        resolved: if resolved { Ok(()) } else { Err(KeyRegistryError::NotTrusted) },
        decision: if decided { Ok(()) } else { Err(AuthorizationError::Denied) },
        outcome: Ok(vec![emitted()]),
        persisted: if stored { Ok(()) } else { Err(String::from("disk full")) },
    };
    let run = request(Route::PlayerDurableKeyed, &intent, Some(&block), &alice);
    assert_eq!(serve(run, replies(true, true, true)).unwrap().len(), 1);
    assert_eq!(
        authentication_failure(serve(run, replies(false, true, true))),
        KeyRegistryError::NotTrusted.message()
    );
    assert_eq!(
        authentication_failure(serve(run, replies(true, false, true))),
        AuthorizationError::Denied.message()
    );
    assert!(matches!(
        serve(run, replies(true, true, false)),
        Err(ExecutorError::Store(text)) if text == "disk full"
    ));
    let stranger = request(Route::PlayerKeyed, &intent, Some(&block), &mallory);
    assert_eq!(authentication_failure(serve(stranger, replies(true, true, true))), UNBOUND);
    let plain = request(Route::Player, &intent, Some(&block), &alice);
    assert!(serve(plain, replies(false, true, false)).is_ok());
}

// --- Batches of players -----------------------------------------------------

/// Admits a batch and lists the outside work; the last denied item, if any.
fn drive_batch(
    items: Vec<PlayerBatchItem>,
    denied: Option<&str>,
) -> (Result<BatchStep, ExecutorError>, Vec<String>) {
    let registry = registry();
    let mut log = Vec::new();
    let mut step = enter_batch(items);
    loop {
        step = match step {
            AdmissionStep::Authorize(wait) => {
                let id = wait.context().intent.intent_id.0.clone();
                log.push(format!("authorize {}", id));
                wait.resume(if denied == Some(id.as_str()) {
                    Err(AuthorizationError::Denied)
                } else {
                    Ok(())
                })
            }
            AdmissionStep::ResolveKey(wait) => {
                let query = wait.query();
                log.push(format!("key {}", query.key_id.0));
                let resolved = registry
                    .resolve_intent_key(
                        query.tenant,
                        query.subject,
                        query.key_id,
                        query.operation,
                        query.at,
                    )
                    .map(|_record| ());
                wait.resume(resolved)
            }
            AdmissionStep::Admitted(batch) => return (Ok(batch), log),
            AdmissionStep::Rejected(error) => return (Err(error), log),
        };
    }
}

#[test]
fn every_item_is_checked_before_any_is_run() {
    let one = intent("1", "alice");
    let two = intent("2", "alice");
    let alice = principal("alice", "game");
    let block = signature("key_alice");
    let item = |intent| PlayerBatchItem { intent, signature: Some(&block), principal: &alice };
    let (result, log) = drive_batch(vec![item(&one), item(&two)], None);
    assert_eq!(
        log,
        vec!["authorize int_1", "key key_alice", "authorize int_2", "key key_alice"]
    );
    match result {
        Ok(BatchStep::RunIntent(wait)) => {
            assert_eq!(wait.index(), 0);
            assert!(wait.persist_intent());
            assert!(!wait.allow_value_legs());
        }
        _ => panic!("expected a running batch"),
    }

    let (result, log) = drive_batch(vec![item(&one), item(&two)], Some("int_2"));
    assert!(matches!(result, Err(ExecutorError::ActorAuthenticationFailed(_))));
    assert_eq!(log, vec!["authorize int_1", "key key_alice", "authorize int_2"]);
}

#[test]
fn one_bad_item_rejects_the_batch() {
    let one = intent("1", "alice");
    let two = intent("2", "alice");
    let alice = principal("alice", "game");
    let mallory = principal("mallory", "game");
    let good = signature("key_alice");
    let bad = signature("key_of_nobody");
    let first = || PlayerBatchItem { intent: &one, signature: Some(&good), principal: &alice };

    for (item, text) in [
        (
            PlayerBatchItem { intent: &two, signature: None, principal: &alice },
            String::from(UNSIGNED),
        ),
        (
            PlayerBatchItem { intent: &two, signature: Some(&good), principal: &mallory },
            String::from(UNBOUND),
        ),
        (
            PlayerBatchItem { intent: &two, signature: Some(&bad), principal: &alice },
            KeyRegistryError::NotFound.message(),
        ),
    ] {
        let (result, _log) = drive_batch(vec![first(), item], None);
        match result {
            Err(ExecutorError::ActorAuthenticationFailed(detail)) => assert_eq!(detail, text),
            _ => panic!("expected a rejection"),
        }
    }
}

#[test]
fn an_empty_player_batch_is_refused() {
    let (result, log) = drive_batch(Vec::new(), None);
    match result {
        Ok(BatchStep::Done(Err(ExecutorError::AtomicityViolation(detail)))) => {
            assert_eq!(detail, "empty batch");
        }
        _ => panic!("expected a refusal"),
    }
    assert!(log.is_empty());
}

// --- Assembly ---------------------------------------------------------------

#[test]
fn assembly_names_the_first_missing_part() {
    assert!(check_ports(true, true, true, true).is_ok());
    for (present, missing) in [
        ((false, false, false, false), PortsBuildError::MissingIntentStore),
        ((true, false, false, false), PortsBuildError::MissingStateIndex),
        ((true, true, false, false), PortsBuildError::MissingTenantStore),
        ((true, true, true, false), PortsBuildError::MissingTransactionManager),
    ] {
        let (a, b, c, d) = present;
        assert_eq!(check_ports(a, b, c, d), Err(missing));
        assert!(!missing.message().is_empty());
    }
    assert!(check_components(true, true, true, true, true).is_ok());
    for (count, missing) in [
        ExecutorBuildError::MissingPorts,
        ExecutorBuildError::MissingExecutor,
        ExecutorBuildError::MissingClock,
        ExecutorBuildError::MissingEventIdGen,
        ExecutorBuildError::MissingIntentVerifier,
    ]
    .into_iter()
    .enumerate()
    {
        let result =
            check_components(count > 0, count > 1, count > 2, count > 3, count > 4);
        assert_eq!(result, Err(missing));
        assert!(!missing.message().is_empty());
    }
}
