use statechronicle::domain::digest::ContentDigest;
use statechronicle::domain::ids::{
    CommitId, IntentId, KeyId, Operation, ResourceId, SubjectId, TenantId,
};
use statechronicle::domain::intent::{Intent, Nonce};
use statechronicle::domain::state::StateType;
use statechronicle::domain::time::{read_timestamp, Timestamp};
use statechronicle::json::Fields;
use statechronicle::limits::{MAX_ID_LENGTH, MAX_QUOTA_KEY_BYTES};
use statechronicle::ports::authorization::{
    authorization_context, AuthenticatedPrincipal, AuthorizationContext, DenyAllAuthorizer,
};
use statechronicle::ports::errors::{
    AuthorizationError, CommitStoreError, EventPublisherError, EventStoreError, IntentStoreError,
    LedgerStoreError, ProofIndexError, SnapshotStoreError, StateIndexError, TenantStoreError,
    TradeIndexError, TransactionManagerError, TrustGrantError,
};
use statechronicle::ports::key_registry::{
    KeyRecord, KeyRegistryError, KeyStatus, MemoryKeyRegistry,
};
use statechronicle::ports::observability::{
    InMemoryMetrics, MutationMetric, MutationOutcome, NoopMetrics,
};
use statechronicle::ports::outbox::{
    begin_consume, begin_dispatch, begin_drain, begin_worker, commit_delivery_key, ConsumeStep,
    ConsumerDeliveryClaim, Delay, DispatchReport, DispatchStep, DrainStep, OutboxError,
    OutboxPayload, OutboxWorkerConfig, PoisonPolicy, WorkerReport, WorkerStep,
};
use statechronicle::ports::quota::{
    charge_dimensions, unsupported_charge, validate_request, QuotaError,
};

fn at(text: &str) -> Timestamp {
    read_timestamp(text).unwrap().0
}

fn tenant(name: &str) -> TenantId {
    TenantId(String::from(name))
}

fn operation(name: &str) -> Operation {
    Operation(String::from(name))
}

fn subject(name: &str) -> SubjectId {
    SubjectId(String::from(name))
}

// --- Error messages and retry classes ---------------------------------------

#[test]
fn commit_store_error_display_messages() {
    assert_eq!(CommitStoreError::Duplicate.message(), "commit id already stored");
    assert_eq!(
        CommitStoreError::Unavailable(String::from("db down")).message(),
        "commit store unavailable: db down"
    );
}

#[test]
fn event_publisher_error_display_messages() {
    assert_eq!(
        EventPublisherError::Rejected(String::from("out of order")).message(),
        "publisher rejected delivery: out of order"
    );
    assert_eq!(
        EventPublisherError::Unavailable(String::from("broker down")).message(),
        "event publisher unavailable: broker down"
    );
}

#[test]
fn event_store_error_display_messages() {
    assert_eq!(
        EventStoreError::DuplicateEventId.message(),
        "batch contains a duplicate event id"
    );
    assert_eq!(
        EventStoreError::Unavailable(String::from("db down")).message(),
        "event store unavailable: db down"
    );
}

#[test]
fn intent_store_error_display_messages() {
    assert_eq!(
        IntentStoreError::Duplicate.message(),
        "intent id already exists with a different payload"
    );
    assert_eq!(
        IntentStoreError::Unavailable(String::from("db down")).message(),
        "intent store unavailable: db down"
    );
}

#[test]
fn proof_index_error_display_messages() {
    assert_eq!(
        ProofIndexError::NotFound.message(),
        "no proof available for the requested claim"
    );
    assert_eq!(
        ProofIndexError::Unavailable(String::from("db down")).message(),
        "proof index unavailable: db down"
    );
}

#[test]
fn snapshot_store_error_display_messages() {
    assert_eq!(
        SnapshotStoreError::Corrupt(String::from("checksum")).message(),
        "stored snapshot is corrupt: checksum"
    );
    assert_eq!(
        SnapshotStoreError::Unavailable(String::from("db down")).message(),
        "snapshot store unavailable: db down"
    );
}

#[test]
fn state_index_error_display_messages() {
    assert_eq!(
        StateIndexError::Inconsistent(String::from("stale")).message(),
        "no consistent index projection available: stale"
    );
    assert_eq!(
        StateIndexError::Unavailable(String::from("db down")).message(),
        "state index unavailable: db down"
    );
}

#[test]
fn tenant_store_error_display_messages() {
    assert_eq!(TenantStoreError::NotFound.message(), "tenant checkpoint root not found");
    assert_eq!(
        TenantStoreError::Unavailable(String::from("db down")).message(),
        "tenant store unavailable: db down"
    );
}

#[test]
fn trade_index_error_display_messages() {
    assert_eq!(
        TradeIndexError::NotFound.message(),
        "no trade record available for the requested trade id"
    );
    assert_eq!(
        TradeIndexError::Unavailable(String::from("db down")).message(),
        "trade index unavailable: db down"
    );
}

#[test]
fn transaction_manager_error_display_messages() {
    assert_eq!(
        TransactionManagerError::Aborted.message(),
        "transaction aborted by coordinator"
    );
    assert_eq!(
        TransactionManagerError::CommitFailed(String::from("durable")).message(),
        "transaction commit failed: durable"
    );
    assert_eq!(
        TransactionManagerError::RollbackFailed(String::from("release")).message(),
        "transaction rollback failed: release"
    );
    assert_eq!(
        TransactionManagerError::Unavailable(String::from("coordinator down")).message(),
        "transaction coordinator unavailable: coordinator down"
    );
}

#[test]
fn retry_classification_is_fail_closed() {
    assert!(LedgerStoreError::Conflict(String::new()).is_retryable());
    assert!(LedgerStoreError::Unavailable(String::new()).is_retryable());
    assert!(!LedgerStoreError::Idempotency(String::new()).is_retryable());
    assert!(!LedgerStoreError::Invariant(String::new()).is_retryable());
    assert!(!LedgerStoreError::Closed.is_retryable());
}

#[test]
fn every_error_message_carries_its_detail() {
    let detail = String::from("x7");
    for message in [
        AuthorizationError::Unavailable(detail.clone()).message(),
        AuthorizationError::ContextMismatch(detail.clone()).message(),
        LedgerStoreError::Conflict(detail.clone()).message(),
        LedgerStoreError::Idempotency(detail.clone()).message(),
        LedgerStoreError::Unavailable(detail.clone()).message(),
        LedgerStoreError::Invariant(detail.clone()).message(),
        TrustGrantError::Unavailable(detail.clone()).message(),
        KeyRegistryError::Unavailable(detail.clone()).message(),
        OutboxError::Unavailable(detail.clone()).message(),
        OutboxError::Corrupt(detail.clone()).message(),
        QuotaError::Unavailable(detail.clone()).message(),
        QuotaError::Invalid(detail.clone()).message(),
        QuotaError::Unsupported(detail.clone()).message(),
    ] {
        assert!(message.ends_with(": x7"), "{}", message);
    }
}

// --- Authorization ----------------------------------------------------------

fn player() -> AuthenticatedPrincipal {
    AuthenticatedPrincipal {
        subject: subject("account:player"),
        credential_id: String::from("session-1"),
        tenant: tenant("game"),
    }
}

fn player_intent(principal: &AuthenticatedPrincipal) -> Intent {
    Intent::new(
        principal.tenant.clone(),
        IntentId::new(String::from("int_01JZ8WJ1V6MJ6Y3Z6Z9CA8B2K2")).unwrap(),
        operation("asset.transfer"),
        principal.subject.clone(),
        ResourceId(String::from("asset:sword")),
        Some(StateType::UniqueAsset),
        0,
        Fields::new(),
        None,
        at("2026-01-01T00:00:00Z"),
        None,
        Nonce::from_bytes(vec![1]),
    )
}

#[test]
fn deny_all_is_fail_closed() {
    let authorizer = DenyAllAuthorizer;
    let principal = player();
    let intent = player_intent(&principal);
    let denied = authorizer.authorize(AuthorizationContext {
        principal: &principal,
        tenant: &principal.tenant,
        resource: &intent.resource_id,
        intent: &intent,
    });
    assert!(matches!(denied, Err(AuthorizationError::Denied)));
}

#[test]
fn the_authorization_context_is_read_off_the_principal_and_the_intent() {
    let principal = player();
    let intent = player_intent(&principal);
    let context = authorization_context(&principal, &intent);
    assert_eq!(context.tenant.as_str(), "game");
    assert_eq!(context.resource.as_str(), "asset:sword");
    assert_eq!(context.principal.credential_id, "session-1");
    assert!(principal.is_bound_to(&intent));

    let other = AuthenticatedPrincipal {
        subject: subject("account:other"),
        credential_id: String::from("session-1"),
        tenant: tenant("game"),
    };
    assert!(!other.is_bound_to(&intent));
    let elsewhere = AuthenticatedPrincipal {
        subject: subject("account:player"),
        credential_id: String::from("session-1"),
        tenant: tenant("elsewhere"),
    };
    assert!(!elsewhere.is_bound_to(&intent));
}

// --- Keys -------------------------------------------------------------------

fn key_record(key: &str) -> KeyRecord {
    KeyRecord {
        key_id: KeyId::new(String::from(key)).unwrap(),
        tenant: tenant("game"),
        subject: Some(subject("account:alice")),
        operations: vec![operation("asset.transfer")],
        valid_from: at("2026-01-01T00:00:00Z"),
        valid_until: None,
        status: KeyStatus::Active,
    }
}

#[test]
fn permits_requires_exact_scope_and_active_window() {
    let record = key_record("key_01JZ8X2XRE5ZYW5V9R7VDQBSH4");
    let alice = subject("account:alice");
    let transfer = operation("asset.transfer");
    let then = at("2026-01-02T00:00:00Z");
    assert!(record.permits(&tenant("game"), &alice, &transfer, then));
    assert!(!record.permits(&tenant("other"), &alice, &transfer, then));
}

#[test]
fn permits_refuses_every_other_scope() {
    let alice = subject("account:alice");
    let transfer = operation("asset.transfer");
    let then = at("2026-01-02T00:00:00Z");

    let record = key_record("key_01JZ8X2XRE5ZYW5V9R7VDQBSH4");
    assert!(!record.permits(&tenant("game"), &subject("account:bob"), &transfer, then));
    assert!(!record.permits(&tenant("game"), &alice, &operation("asset.mint"), then));
    assert!(!record.permits(&tenant("game"), &alice, &transfer, at("2025-12-31T23:59:59Z")));
    assert!(record.permits(&tenant("game"), &alice, &transfer, at("2026-01-01T00:00:00Z")));

    let mut ending = key_record("key_01JZ8X2XRE5ZYW5V9R7VDQBSH4");
    ending.valid_until = Some(then);
    assert!(!ending.permits(&tenant("game"), &alice, &transfer, at("2026-01-03T00:00:00Z")));

    for status in [KeyStatus::Retired, KeyStatus::Revoked] {
        let mut closed = key_record("key_01JZ8X2XRE5ZYW5V9R7VDQBSH4");
        closed.status = status;
        assert!(!closed.permits(&tenant("game"), &alice, &transfer, then));
    }
}

#[test]
fn memory_registry_rotates_and_revokes_keys() {
    let mut registry = MemoryKeyRegistry::new();
    let game = tenant("game");
    let alice = subject("account:alice");
    let transfer = operation("asset.transfer");
    let key_id = KeyId::new(String::from("key_01JZ8X2XRE5ZYW5V9R7VDQBSH5")).unwrap();
    registry.register(key_record("key_01JZ8X2XRE5ZYW5V9R7VDQBSH5")).unwrap();
    let then = at("2026-01-02T00:00:00Z");
    assert!(registry.resolve_intent_key(&game, &alice, &key_id, &transfer, then).is_ok());
    registry.retire(&key_id).unwrap();
    assert!(matches!(
        registry.resolve_intent_key(&game, &alice, &key_id, &transfer, then),
        Err(KeyRegistryError::NotTrusted)
    ));
    assert!(registry.resolve_commit_key(&game, &key_id, then).is_ok());
    registry.revoke(&key_id).unwrap();
    assert!(matches!(
        registry.resolve_commit_key(&game, &key_id, then),
        Err(KeyRegistryError::NotTrusted)
    ));
    assert!(matches!(registry.retire(&key_id), Err(KeyRegistryError::NotTrusted)));
    assert!(matches!(registry.get(&key_id).unwrap().status, KeyStatus::Revoked));
}

#[test]
fn memory_registry_accepts_scoped_commit_key_without_operations() {
    let mut registry = MemoryKeyRegistry::new();
    let game = tenant("game");
    let key_id = KeyId::new(String::from("key_01JZ8X2XRE5ZYW5V9R7VDQBSH6")).unwrap();
    registry
        .register(KeyRecord {
            key_id: key_id.clone(),
            tenant: game.clone(),
            subject: None,
            operations: Vec::new(),
            valid_from: at("2026-01-01T00:00:00Z"),
            valid_until: None,
            status: KeyStatus::Active,
        })
        .unwrap();
    let then = at("2026-01-02T00:00:00Z");
    assert!(registry.resolve_commit_key(&game, &key_id, then).is_ok());
    assert!(matches!(
        registry.resolve_intent_key(
            &game,
            &subject("account:alice"),
            &key_id,
            &operation("asset.transfer"),
            then,
        ),
        Err(KeyRegistryError::NotTrusted)
    ));
}

#[test]
fn an_unknown_key_is_not_found() {
    let mut registry = MemoryKeyRegistry::new();
    let key_id = KeyId::new(String::from("key_01JZ8X2XRE5ZYW5V9R7VDQBSH6")).unwrap();
    let then = at("2026-01-02T00:00:00Z");
    assert!(registry.get(&key_id).is_none());
    assert!(matches!(registry.retire(&key_id), Err(KeyRegistryError::NotFound)));
    assert!(matches!(registry.revoke(&key_id), Err(KeyRegistryError::NotFound)));
    assert!(matches!(
        registry.resolve_commit_key(&tenant("game"), &key_id, then),
        Err(KeyRegistryError::NotFound)
    ));
    assert!(matches!(
        registry.resolve_intent_key(
            &tenant("game"),
            &subject("account:alice"),
            &key_id,
            &operation("asset.transfer"),
            then,
        ),
        Err(KeyRegistryError::NotFound)
    ));
    assert_eq!(KeyRegistryError::NotFound.message().is_empty(), false);
}

// --- Outbox -----------------------------------------------------------------

fn digest_of(bytes: &[u8]) -> ContentDigest {
    let mut digest = [0u8; 32];
    for (i, byte) in bytes.iter().enumerate() {
        digest[i % 32] ^= byte.wrapping_add(i as u8);
    }
    ContentDigest::new(digest)
}

fn row(key: &str, body: &[u8]) -> (String, OutboxPayload) {
    (
        String::from(key),
        OutboxPayload::Opaque {
            tenant: tenant("game"),
            commit_id: CommitId(String::from("sc_commit_1")),
            payload_digest: digest_of(body),
            payload: body.to_vec(),
        },
    )
}

fn corrupt_row(key: &str) -> (String, OutboxPayload) {
    (
        String::from(key),
        OutboxPayload::Opaque {
            tenant: tenant("game"),
            commit_id: CommitId(String::from("sc_commit_1")),
            payload_digest: digest_of(b"intended"),
            payload: b"tampered".to_vec(),
        },
    )
}

/// Runs one dispatch pass, publishing every row but those whose key starts
/// with `bad`, and lists what was done.
fn drive_dispatch(
    rows: Vec<(String, OutboxPayload)>,
    policy: PoisonPolicy,
    store_up: bool,
) -> (Result<DispatchReport, OutboxError>, Vec<String>) {
    let mut log = Vec::new();
    let reply = || {
        if store_up {
            Ok(())
        } else {
            Err(OutboxError::Unavailable(String::from("lease lost")))
        }
    };
    let mut step = begin_dispatch(Ok(rows), policy);
    loop {
        step = match step {
            DispatchStep::DigestRow(wait) => {
                let actual = digest_of(wait.body());
                wait.resume(actual)
            }
            DispatchStep::PublishRow(wait) => {
                let key = wait.row().0.clone();
                log.push(format!("publish {}", key));
                if key.starts_with("bad") {
                    wait.resume(Err(String::from("broker down")))
                } else {
                    wait.resume(Ok(()))
                }
            }
            DispatchStep::CompleteRow(wait) => {
                log.push(format!("complete {}", wait.delivery_key()));
                wait.resume(reply())
            }
            DispatchStep::ReleaseRow(wait) => {
                log.push(format!("release {} {}", wait.delivery_key(), wait.reason()));
                wait.resume(reply())
            }
            DispatchStep::RejectRow(wait) => {
                log.push(format!("reject {}", wait.delivery_key()));
                wait.resume(reply())
            }
            DispatchStep::QuarantineRow(wait) => {
                log.push(format!("quarantine {}", wait.delivery_key()));
                wait.resume(reply())
            }
            DispatchStep::Done(result) => return (result, log),
        };
    }
}

#[test]
fn nothing_brings_a_revoked_key_back() {
    let name = "key_01JZ8X2XRE5ZYW5V9R7VDQBSH5";
    let record = key_record(name);
    let key = record.key_id.clone();
    let mut registry = MemoryKeyRegistry::new();
    registry.register(record.clone()).unwrap();
    registry.revoke(&key).unwrap();
    for _ in 0..2 {
        assert!(matches!(registry.register(key_record(name)), Err(KeyRegistryError::NotTrusted)));
        assert!(matches!(registry.retire(&key), Err(KeyRegistryError::NotTrusted)));
        for status in [KeyStatus::Active, KeyStatus::Retired] {
            let refused = registry.set_status(&key, status);
            assert!(matches!(refused, Err(KeyRegistryError::NotTrusted)));
        }
        assert!(registry.set_status(&key, KeyStatus::Revoked).is_ok());
        assert!(registry.revoke(&key).is_ok());
        registry.register(key_record("key_01JZ8X2XRE5ZYW5V9R7VDQBSH6")).unwrap_or(());
        let at = record.valid_from;
        assert!(matches!(
            registry.resolve_intent_key(
                &record.tenant,
                record.subject.as_ref().unwrap(),
                &key,
                &record.operations[0],
                at,
            ),
            Err(KeyRegistryError::NotTrusted)
        ));
        assert!(matches!(
            registry.resolve_commit_key(&record.tenant, &key, at),
            Err(KeyRegistryError::NotTrusted)
        ));
        assert_eq!(registry.get(&key).unwrap().status, KeyStatus::Revoked);
    }
}

#[test]
fn retry_classification_rejects_corruption() {
    assert!(OutboxError::Unavailable(String::new()).is_retryable());
    assert!(!OutboxError::Corrupt(String::new()).is_retryable());
}

#[test]
fn a_pass_delivers_releases_and_quarantines() {
    let rows = vec![row("a", b"one"), row("bad-b", b"two"), corrupt_row("c"), row("d", b"four")];
    let (result, log) = drive_dispatch(rows, PoisonPolicy::Quarantine, true);
    let report = result.unwrap();
    assert_eq!((report.delivered, report.retried, report.quarantined), (2, 1, 1));
    assert_eq!(
        log,
        vec![
            "publish a",
            "complete a",
            "publish bad-b",
            "release bad-b broker down",
            "quarantine c",
            "publish d",
            "complete d",
        ]
    );
}

#[test]
fn a_pass_stops_at_a_corrupt_row_under_the_retry_policy() {
    let rows = vec![row("a", b"one"), corrupt_row("c"), row("d", b"four")];
    let (result, log) = drive_dispatch(rows, PoisonPolicy::Retry, true);
    match result {
        Err(OutboxError::Corrupt(detail)) => {
            assert_eq!(detail, "payload digest mismatch for `c`");
        }
        _ => panic!("expected corruption"),
    }
    assert_eq!(log, vec!["publish a", "complete a", "reject c"]);
}

#[test]
fn a_pass_stops_when_the_store_fails() {
    for (rows, policy) in [
        (vec![row("a", b"one")], PoisonPolicy::Retry),
        (vec![row("bad", b"one")], PoisonPolicy::Retry),
        (vec![corrupt_row("c")], PoisonPolicy::Retry),
        (vec![corrupt_row("c")], PoisonPolicy::Quarantine),
    ] {
        let (result, _log) = drive_dispatch(rows, policy, false);
        match result {
            Err(OutboxError::Unavailable(detail)) => assert_eq!(detail, "lease lost"),
            _ => panic!("expected the store's error"),
        }
    }
    let refused = begin_dispatch(
        Err(OutboxError::Unavailable(String::from("no claim"))),
        PoisonPolicy::Retry,
    );
    assert!(matches!(refused, DispatchStep::Done(Err(OutboxError::Unavailable(_)))));
}

fn drive_drain(
    limit: usize,
    max_passes: usize,
    passes: Vec<DispatchReport>,
) -> (Result<DispatchReport, OutboxError>, usize) {
    let mut run = 0;
    let mut step = begin_drain(limit, max_passes);
    loop {
        step = match step {
            DrainStep::RunPass(wait) => {
                let report = passes[run];
                run += 1;
                wait.resume(Ok(report))
            }
            DrainStep::Done(result) => return (result, run),
        };
    }
}

fn report(delivered: u64, retried: u64, quarantined: u64) -> DispatchReport {
    DispatchReport { delivered, retried, quarantined }
}

#[test]
fn a_drain_stops_when_idle_and_at_its_bound() {
    let passes = vec![report(2, 1, 0), report(1, 0, 0), report(0, 0, 3), report(9, 9, 9)];
    let (result, run) = drive_drain(4, 10, passes.clone());
    assert_eq!(result.unwrap(), report(3, 1, 3));
    assert_eq!(run, 3);

    let (result, run) = drive_drain(4, 1, passes.clone());
    assert_eq!(result.unwrap(), report(2, 1, 0));
    assert_eq!(run, 1);

    for (limit, max_passes) in [(0, 1), (1, 0)] {
        let (result, run) = drive_drain(limit, max_passes, passes.clone());
        assert!(matches!(result, Err(OutboxError::Unavailable(_))));
        assert_eq!(run, 0);
    }

    let (result, _) = drive_drain(1, 2, vec![report(u64::MAX, 0, 0), report(5, 0, 0)]);
    assert_eq!(result.unwrap().delivered, u64::MAX);
}

#[test]
fn a_drain_hands_on_the_error_of_a_pass() {
    match begin_drain(1, 1) {
        DrainStep::RunPass(wait) => {
            let done = wait.resume(Err(OutboxError::Corrupt(String::from("c"))));
            assert!(matches!(done, DrainStep::Done(Err(OutboxError::Corrupt(_)))));
        }
        DrainStep::Done(_) => panic!("a pass is owed"),
    }
}

fn millis(count: u128) -> Delay {
    Delay { nanos: count * 1_000_000 }
}

fn worker_config() -> OutboxWorkerConfig {
    OutboxWorkerConfig {
        batch_size: 4,
        lease_duration_secs: 30,
        max_ticks: 3,
        idle_backoff: millis(1),
        error_backoff: millis(1),
        max_error_backoff: millis(8),
        poison_policy: PoisonPolicy::Quarantine,
    }
}

/// Runs a worker whose ticks give the listed results, then idle ones.
fn drive_worker(
    config: OutboxWorkerConfig,
    ticks: Vec<Result<DispatchReport, OutboxError>>,
    stop_after: usize,
) -> (Result<WorkerReport, OutboxError>, Vec<Delay>) {
    let mut ticks = ticks.into_iter();
    let mut asked = 0;
    let mut sleeps = Vec::new();
    let mut step = begin_worker("worker", config);
    loop {
        step = match step {
            WorkerStep::AskStop(wait) => {
                let stop = asked >= stop_after;
                asked += 1;
                wait.resume(stop)
            }
            WorkerStep::RunTick(wait) => {
                assert_eq!(wait.batch_size(), config.batch_size);
                assert_eq!(wait.lease_until(100), 130);
                assert_eq!(wait.lease_until(i64::MAX), i64::MAX);
                wait.resume(ticks.next().unwrap_or(Ok(report(0, 0, 0))))
            }
            WorkerStep::Sleep(wait) => {
                sleeps.push(wait.duration());
                wait.resume()
            }
            WorkerStep::Done(result) => return (result, sleeps),
        };
    }
}

#[test]
fn worker_honors_tick_bound_and_idle_backoff() {
    let (result, sleeps) = drive_worker(worker_config(), Vec::new(), usize::MAX);
    let report = result.unwrap();
    assert_eq!(report.ticks, 3);
    assert_eq!(report.delivered, 0);
    assert_eq!(sleeps.len(), 3);
    assert_eq!(sleeps, vec![millis(1), millis(1), millis(1)]);
}

#[test]
fn worker_backoff_doubles_up_to_its_bound_and_resets() {
    let mut config = worker_config();
    config.max_ticks = 8;
    config.idle_backoff = millis(50);
    let down = || Err(OutboxError::Unavailable(String::from("down")));
    let ticks = vec![down(), down(), down(), down(), down(), Ok(report(1, 2, 3)), down()];
    let (result, sleeps) = drive_worker(config, ticks, usize::MAX);
    let total = result.unwrap();
    assert_eq!(
        sleeps,
        vec![millis(1), millis(2), millis(4), millis(8), millis(8), millis(1), millis(50)]
    );
    assert_eq!((total.delivered, total.retried, total.quarantined), (1, 2, 3));
    assert_eq!(total.ticks, 8);
    assert_eq!(total.transient_errors, 6);
}

#[test]
fn worker_reports_a_failure_of_its_last_tick() {
    let down = || Err(OutboxError::Unavailable(String::from("down")));
    let mut config = worker_config();
    config.max_ticks = 1;
    let (result, sleeps) = drive_worker(config, vec![down()], usize::MAX);
    assert!(matches!(result, Err(OutboxError::Unavailable(text)) if text == "down"));
    assert_eq!(sleeps, vec![millis(1)]);

    config.max_ticks = 2;
    let (result, sleeps) = drive_worker(config, vec![down(), Ok(report(1, 0, 0))], usize::MAX);
    assert_eq!(result.unwrap().transient_errors, 1);
    assert_eq!(sleeps, vec![millis(1)]);
    let (result, sleeps) = drive_worker(config, vec![Ok(report(1, 0, 0)), down()], usize::MAX);
    assert!(matches!(result, Err(OutboxError::Unavailable(text)) if text == "down"));
    assert_eq!(sleeps, vec![millis(1)]);

    config.max_ticks = 5;
    let ticks = vec![down(), down(), down(), down(), down()];
    let (result, sleeps) = drive_worker(config, ticks, usize::MAX);
    assert!(matches!(result, Err(OutboxError::Unavailable(text)) if text == "down"));
    assert_eq!(sleeps, vec![millis(1), millis(2), millis(4), millis(8), millis(8)]);
}

#[test]
fn worker_stops_when_told_and_on_corruption() {
    let (result, sleeps) = drive_worker(worker_config(), Vec::new(), 1);
    assert_eq!(result.unwrap().ticks, 1);
    assert_eq!(sleeps.len(), 1);

    let ticks = vec![Err(OutboxError::Corrupt(String::from("c")))];
    let (result, sleeps) = drive_worker(worker_config(), ticks, usize::MAX);
    assert!(matches!(result, Err(OutboxError::Corrupt(_))));
    assert!(sleeps.is_empty());
}

#[test]
fn worker_refuses_empty_bounds() {
    let mut refused = Vec::new();
    refused.push(begin_worker("", worker_config()));
    let mut config = worker_config();
    config.batch_size = 0;
    refused.push(begin_worker("worker", config));
    let mut config = worker_config();
    config.max_ticks = 0;
    refused.push(begin_worker("worker", config));
    let mut config = worker_config();
    config.lease_duration_secs = 0;
    refused.push(begin_worker("worker", config));
    let mut config = worker_config();
    config.max_error_backoff = millis(0);
    refused.push(begin_worker("worker", config));
    for step in refused {
        match step {
            WorkerStep::Done(Err(error)) => assert_eq!(
                error.message(),
                "outbox item is unavailable: worker id and bounds must be non-empty"
            ),
            _ => panic!("expected a refusal"),
        }
    }
}

fn drive_consume(
    claim: Result<ConsumerDeliveryClaim, OutboxError>,
    applied: Result<(), String>,
    store_up: bool,
) -> (Result<bool, OutboxError>, Vec<String>) {
    let mut log = Vec::new();
    let mut claim = Some(claim);
    let mut applied = Some(applied);
    let reply = || {
        if store_up {
            Ok(())
        } else {
            Err(OutboxError::Unavailable(String::from("lease lost")))
        }
    };
    let mut step = begin_consume("commit:game:c1", 20, 10);
    loop {
        step = match step {
            ConsumeStep::Claim(wait) => wait.resume(claim.take().unwrap()),
            ConsumeStep::Apply(wait) => {
                log.push(String::from("apply"));
                wait.resume(applied.take().unwrap())
            }
            ConsumeStep::Release(wait) => {
                log.push(format!("release {} {}", wait.attempt_id(), wait.reason()));
                wait.resume(reply())
            }
            ConsumeStep::MarkApplied(wait) => {
                log.push(format!("applied {}", wait.attempt_id()));
                wait.resume(reply())
            }
            ConsumeStep::Done(result) => return (result, log),
        };
    }
}

fn new_claim() -> Result<ConsumerDeliveryClaim, OutboxError> {
    Ok(ConsumerDeliveryClaim::New { attempt_id: String::from("t1") })
}

#[test]
fn a_delivery_is_applied_once() {
    let (result, log) = drive_consume(new_claim(), Ok(()), true);
    assert_eq!(result.unwrap(), true);
    assert_eq!(log, vec!["apply", "applied t1"]);

    let again = Ok(ConsumerDeliveryClaim::AlreadyApplied);
    let (result, log) = drive_consume(again, Ok(()), true);
    assert_eq!(result.unwrap(), false);
    assert!(log.is_empty());
}

#[test]
fn a_failed_delivery_is_released() {
    let (result, log) = drive_consume(new_claim(), Err(String::from("no room")), true);
    match result {
        Err(OutboxError::Unavailable(detail)) => assert_eq!(detail, "no room"),
        _ => panic!("expected the consumer's error"),
    }
    assert_eq!(log, vec!["apply", "release t1 no room"]);

    for applied in [Ok(()), Err(String::from("no room"))] {
        let (result, _log) = drive_consume(new_claim(), applied, false);
        match result {
            Err(OutboxError::Unavailable(detail)) => assert_eq!(detail, "lease lost"),
            _ => panic!("expected the store's error"),
        }
    }
}

#[test]
fn a_delivery_in_progress_is_not_applied() {
    let claim = Ok(ConsumerDeliveryClaim::InProgress {
        attempt_id: String::from("t0"),
        lease_expires_at_unix: 15,
    });
    let (result, log) = drive_consume(claim, Ok(()), true);
    assert_eq!(
        result.unwrap_err().message(),
        "outbox item is unavailable: consumer delivery is already in progress"
    );
    assert!(log.is_empty());

    let claim = Err(OutboxError::Corrupt(String::from("c")));
    let (result, _log) = drive_consume(claim, Ok(()), true);
    assert!(matches!(result, Err(OutboxError::Corrupt(_))));
}

#[test]
fn a_delivery_needs_a_key_and_a_lease_in_the_future() {
    match begin_consume("", 20, 10) {
        ConsumeStep::Done(Err(OutboxError::Unavailable(detail))) => {
            assert_eq!(detail, "consumer delivery key must not be empty");
        }
        _ => panic!("expected a refusal"),
    }
    match begin_consume("k", 10, 10) {
        ConsumeStep::Done(Err(OutboxError::Unavailable(detail))) => {
            assert_eq!(detail, "consumer lease expiration must be in the future");
        }
        _ => panic!("expected a refusal"),
    }
}

#[test]
fn delivery_keys_name_the_tenant_and_the_commit() {
    let key = commit_delivery_key(&tenant("game"), &CommitId(String::from("sc_commit_9")));
    assert_eq!(key, "commit:game:sc_commit_9");
}

// --- Metrics ----------------------------------------------------------------

fn metric(tenant_name: &str, name: &str, outcome: MutationOutcome, latency: u64) -> MutationMetric {
    MutationMetric {
        tenant: tenant(tenant_name),
        operation: operation(name),
        outcome,
        latency_ms: latency,
    }
}

#[test]
fn in_memory_metrics_aggregate_and_bound_series() {
    let mut metrics = InMemoryMetrics::new(1);
    metrics.record_mutation(metric("game", "balance.transfer", MutationOutcome::Committed, 7));
    metrics.record_mutation(metric("game", "balance.transfer", MutationOutcome::Committed, 11));
    metrics.record_mutation(metric("other", "balance.transfer", MutationOutcome::Rejected, 1));
    let snapshot = metrics.snapshot();
    assert_eq!(snapshot.len(), 1);
    let aggregate = snapshot.first().unwrap();
    assert_eq!(aggregate.count, 2);
    assert_eq!(aggregate.total_latency_ms, 18);
    assert_eq!(aggregate.max_latency_ms, 11);
    assert_eq!(metrics.dropped(), 1);
}

#[test]
fn in_memory_metrics_drops_unbounded_or_control_labels() {
    let mut metrics = InMemoryMetrics::new(4);
    let long = "x".repeat(MAX_ID_LENGTH + 1);
    metrics.record_mutation(metric(&long, "asset.transfer", MutationOutcome::Rejected, 0));
    metrics.record_mutation(metric("game\nlog", "asset.transfer", MutationOutcome::Rejected, 0));
    metrics.record_mutation(metric("game", "asset.\ttransfer", MutationOutcome::Rejected, 0));
    assert!(metrics.snapshot().is_empty());
    assert_eq!(metrics.dropped(), 3);
}

#[test]
fn series_are_kept_apart_and_saturate() {
    let mut metrics = InMemoryMetrics::default();
    for outcome in [
        MutationOutcome::Committed,
        MutationOutcome::Replay,
        MutationOutcome::Rejected,
        MutationOutcome::RetryableFailure,
    ] {
        metrics.record_mutation(metric("game", "asset.mint", outcome, u64::MAX));
    }
    metrics.record_mutation(metric("game", "asset.mint", MutationOutcome::Committed, 5));
    let snapshot = metrics.snapshot();
    assert_eq!(snapshot.len(), 4);
    let committed = snapshot
        .iter()
        .find(|series| matches!(series.outcome, MutationOutcome::Committed))
        .unwrap();
    assert_eq!(committed.count, 2);
    assert_eq!(committed.total_latency_ms, u64::MAX);
    assert_eq!(committed.max_latency_ms, u64::MAX);
    assert_eq!(metrics.dropped(), 0);
    NoopMetrics.record_mutation(metric("game", "asset.mint", MutationOutcome::Committed, 5));
}

#[test]
fn every_recording_is_counted_once() {
    let mut metrics = InMemoryMetrics::new(2);
    let mut recorded = 0;
    for round in 0..4 {
        for tenant_name in ["a", "b", "c", "bad\tlabel"] {
            let latency = round * 10 + 1;
            let name = "asset.mint";
            metrics.record_mutation(metric(tenant_name, name, MutationOutcome::Replay, latency));
            recorded += 1;
        }
    }
    let snapshot = metrics.snapshot();
    assert_eq!(snapshot.len(), 2);
    let kept: u64 = snapshot.iter().map(|series| series.count).sum();
    assert_eq!(kept + metrics.dropped(), recorded);
    for (series, name) in snapshot.iter().zip(["a", "b"]) {
        assert_eq!(series.tenant, tenant(name));
        assert_eq!((series.count, series.total_latency_ms, series.max_latency_ms), (4, 64, 31));
    }
    assert_eq!(metrics.dropped(), 8);
}

// --- Quota ------------------------------------------------------------------

#[test]
fn quota_request_validation_is_fail_closed() {
    assert!(validate_request("tenant:game", 1, 0).is_ok());
    assert!(validate_request("", 1, 0).is_err());
    assert!(validate_request("tenant:game", 0, 0).is_err());
    assert!(validate_request("tenant:game", 1, -1).is_err());
    assert!(!QuotaError::Invalid(String::new()).is_retryable());
    assert!(QuotaError::Unavailable(String::new()).is_retryable());
    assert!(validate_request(&"x".repeat(MAX_QUOTA_KEY_BYTES + 1), 1, 0).is_err());
}

#[test]
fn quota_keys_are_measured_in_bytes() {
    assert!(validate_request(&"x".repeat(MAX_QUOTA_KEY_BYTES), 1, 0).is_ok());
    let wide = "\u{e9}".repeat(MAX_QUOTA_KEY_BYTES / 2 + 1);
    assert!(matches!(validate_request(&wide, 1, 0), Err(QuotaError::Invalid(_))));
}

/// A charge against a provider that grants everything, made only once the
/// request was found valid.
fn acquire(key: &str, cost: u64, now_unix_ms: i64) -> Result<bool, QuotaError> {
    validate_request(key, cost, now_unix_ms)?;
    Ok(true)
}

#[test]
fn validated_wrapper_rejects_before_provider_call() {
    assert!(acquire("", 1, 0).is_err());
    let allowed = acquire("tenant:game", 1, 0).unwrap();
    assert!(allowed);
}

#[test]
fn multi_validated_wrapper_rejects_empty_dimensions() {
    assert!(charge_dimensions(&[], 1, 0).is_err());
    assert!(charge_dimensions(&["account:alice", "tenant:game"], 1, 0).is_ok());
}

#[test]
fn multi_validated_wrapper_deduplicates_dimensions() {
    let charged =
        charge_dimensions(&["tenant:game", "account:alice", "tenant:game"], 1, 0).unwrap();
    assert_eq!(charged, vec![String::from("account:alice"), String::from("tenant:game")]);
}

#[test]
fn multi_dimension_defaults_to_fail_closed() {
    assert!(charge_dimensions(&["a", "b"], 1, 0).is_ok());
    let error = unsupported_charge();
    assert!(!error.is_retryable());
    assert!(matches!(error, QuotaError::Unsupported(_)));
}

#[test]
fn dimensions_ignore_order_and_repetition() {
    let one = charge_dimensions(&["c", "a", "b", "a"], 2, 5).unwrap();
    let two = charge_dimensions(&["b", "b", "a", "c"], 2, 5).unwrap();
    assert_eq!(one, two);
    assert_eq!(one, vec!["a", "b", "c"]);
    assert!(charge_dimensions(&["a", ""], 2, 5).is_err());
}
