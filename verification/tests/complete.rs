use statechronicle::domain::digest::{ContentDigest, Signature, SignatureAlg, SignatureBlock};
use statechronicle::domain::error::{ProfileError, StateChronicleError};
use statechronicle::domain::event::Event;
use statechronicle::domain::ids::{
    CommitId, EventId, IntentId, KeyId, Operation, ResourceId, SubjectId, TenantId,
};
use statechronicle::domain::intent::{
    AggregationPolicy, AuthorityProof, EvaluationResult, Intent, Nonce, TrustGrantOutcome,
    TRUSTGRANT_EVALUATION_KIND,
};
use statechronicle::domain::state::{ResourceState, StateProjection, StateType};
use statechronicle::domain::time::{read_timestamp, Timestamp};
use statechronicle::executor::all_or_nothing::{run_batch, BatchReplies};
use statechronicle::executor::batch::{settle_intents, BatchItem, BatchKind};
use statechronicle::executor::complete::{
    execute, AuthorityReplies, EntryReplies, EventReplies, Outcome, Replies, StateReplies,
};
use statechronicle::executor::error::ExecutorError;
use statechronicle::executor::execution::{RuleFacts, Run, Seal};
use statechronicle::intent::validated::ValidatedIntent;
use statechronicle::json::{Fields, Value};
use statechronicle::limits::MAX_INTENT_BYTES;
use statechronicle::ports::errors::{
    IntentStoreError, StateIndexError, TenantStoreError, TransactionManagerError, TrustGrantError,
};

fn at(text: &str) -> Timestamp {
    read_timestamp(text).unwrap().0
}

fn now() -> Timestamp {
    at("2026-07-14T00:00:00Z")
}

fn digest(fill: u8) -> ContentDigest {
    ContentDigest::new([fill; 32])
}

fn intent(operation: &str, state_type: StateType, version: u64, entries: &[(&str, &str)]) -> Intent {
    let mut inputs = Fields::new();
    for (name, text) in entries {
        inputs.insert(String::from(*name), Value::text(text));
    }
    Intent::new(
        TenantId(String::from("acme.game.alpha")),
        IntentId(String::from("int_1")),
        Operation(String::from(operation)),
        SubjectId(String::from("alice")),
        ResourceId(String::from("currency:gold")),
        Some(state_type),
        version,
        inputs,
        None,
        now(),
        None,
        Nonce::from_bytes(vec![0]),
    )
}

fn transfer(amount: &str) -> Intent {
    intent(
        "balance.transfer",
        StateType::FungibleBalance,
        1,
        &[("to_subject", "bob"), ("amount", amount)],
    )
}

fn balance(holder: &str, amount: &str, version: u64) -> StateProjection {
    let payload = Value::object(
        Fields::new()
            .with("subject", Value::text(holder))
            .with("unit", Value::text("gold_minor"))
            .with("balance", Value::text(amount)),
    );
    StateProjection {
        tenant_id: TenantId(String::from("acme.game.alpha")),
        resource_id: ResourceId(String::from("currency:gold")),
        state_type: StateType::FungibleBalance,
        version,
        last_event_id: EventId(String::from("evt_0")),
        last_commit_id: CommitId(String::from("cmt_0")),
        state_hash: digest(1),
        state: ResourceState::new(StateType::FungibleBalance, payload),
    }
}

fn seal(id: &str, fill: u8) -> Seal {
    Seal {
        before_hash: Ok(digest(fill)),
        after_hash: Ok(digest(fill + 1)),
        event_id: EventId(String::from(id)),
        created_at: now(),
    }
}

/// Replies under which a transfer out of a balance of 100 goes through.
fn open_replies() -> Replies {
    Replies {
        entry: EntryReplies {
            size: Ok(10),
            now: now(),
            existing: Ok(None),
            verified: Ok(()),
            fresh: Ok(()),
            known: Ok(true),
        },
        state: StateReplies { loaded: Ok(Some(balance("alice", "100", 1))), reloaded: Ok(None) },
        authority: AuthorityReplies {
            rules: Some(RuleFacts {
                requires_authority: false,
                policy: AggregationPolicy::RequireAll,
            }),
            evaluations: Vec::new(),
            aggregate: digest(7),
            fresh: Ok(()),
        },
        events: EventReplies {
            verdict: Ok(()),
            seal: seal("evt_1", 10),
            destination: Ok(None),
            destination_seal: seal("evt_2", 20),
            claimed: Ok(()),
        },
    }
}

fn drive(intent: &Intent, signature: Option<&SignatureBlock>, replies: Replies) -> Outcome {
    let executor = SubjectId(String::from("service:example"));
    execute(
        Run {
            intent,
            signature,
            allow_value_legs: false,
            persist_intent: true,
            authorities: replies.authority.evaluations.len(),
            executor: &executor,
        },
        replies,
    )
}

#[test]
fn an_unopposed_transfer_hands_out_its_pair() {
    let events = drive(&transfer("40"), None, open_replies()).unwrap();
    assert_eq!(events.len(), 2);
    assert_eq!(events[0].event_id.as_str(), "evt_1");
    assert_eq!(events[0].before.version, 1);
    assert_eq!(events[0].before.state_hash, digest(1));
    assert_eq!(events[0].after.version, 2);
    assert_eq!(events[0].after.state_hash, digest(11));
    assert_eq!(events[0].after.state.payload.text_member("balance"), Some("60"));
    assert_eq!(events[1].event_id.as_str(), "evt_2");
    assert_eq!(events[1].before.version, 0);
    assert_eq!(events[1].before.state_hash, digest(20));
    assert_eq!(events[1].after.state_hash, digest(21));
    assert_eq!(events[1].after.state.payload.text_member("balance"), Some("40"));
    assert_eq!(events[1].after.state.payload.text_member("subject"), Some("bob"));
}

/// Replies to which so many checks object, counted from the last one.
fn objecting(count: usize) -> Replies {
    let mut replies = open_replies();
    if count > 0 {
        replies.events.claimed = Err(IntentStoreError::Duplicate);
    }
    if count > 1 {
        replies.events.destination = Err(StateIndexError::Unavailable(String::from("later")));
    }
    if count > 2 {
        replies.events.verdict = Err(ProfileError { message: String::from("rules object") });
    }
    if count > 3 {
        replies.authority.rules = None;
    }
    if count > 4 {
        replies.state.loaded = Ok(Some(balance("alice", "100", 9)));
    }
    if count > 5 {
        replies.state.loaded = Err(StateIndexError::Unavailable(String::from("earlier")));
    }
    if count > 6 {
        replies.entry.known = Ok(false);
    }
    if count > 7 {
        replies.entry.known = Err(TenantStoreError::NotFound);
    }
    if count > 8 {
        replies.entry.existing = Ok(Some(transfer("41")));
    }
    if count > 9 {
        replies.entry.size = Ok(MAX_INTENT_BYTES + 1);
    }
    if count > 10 {
        let failure = StateChronicleError::Canonicalization(String::from("float"));
        replies.entry.size = Err(failure);
    }
    replies
}

#[test]
fn the_first_check_that_objects_decides() {
    assert!(drive(&transfer("40"), None, objecting(0)).is_ok());
    let error = |count: usize| drive(&transfer("40"), None, objecting(count)).unwrap_err();
    assert!(matches!(error(1), ExecutorError::DuplicateIntent { .. }));
    assert!(matches!(error(2), ExecutorError::Store(text) if text.ends_with("later")));
    assert!(matches!(error(3), ExecutorError::Profile(_)));
    assert!(matches!(error(4), ExecutorError::TransitionInvalid(_)));
    assert!(matches!(
        error(5),
        ExecutorError::ExpectedVersionMismatch { expected: 1, actual: 9, .. }
    ));
    assert!(matches!(error(6), ExecutorError::Store(text) if text.ends_with("earlier")));
    assert!(matches!(error(7), ExecutorError::TenantNotFound { .. }));
    assert!(matches!(error(8), ExecutorError::Store(_)));
    assert!(matches!(error(9), ExecutorError::DuplicateIntent { .. }));
    assert!(matches!(error(10), ExecutorError::SizeLimitExceeded { .. }));
    assert!(matches!(error(11), ExecutorError::Domain(_)));
}

#[test]
fn replays_end_without_events_whatever_else_objects() {
    let mut replies = open_replies();
    replies.entry.existing = Ok(Some(transfer("40")));
    replies.entry.known = Ok(false);
    replies.authority.rules = None;
    assert!(drive(&transfer("40"), None, replies).unwrap().is_empty());
}

#[test]
fn the_signature_is_checked_when_there_is_one() {
    let block = SignatureBlock {
        alg: SignatureAlg::Ed25519,
        key_id: KeyId(String::from("k")),
        sig: Signature { bytes: [0; 64] },
    };
    let refused = || Err(ExecutorError::ActorAuthenticationFailed(String::from("bad")));
    let mut replies = open_replies();
    replies.entry.verified = refused();
    let error = drive(&transfer("40"), Some(&block), replies).unwrap_err();
    assert!(matches!(error, ExecutorError::ActorAuthenticationFailed(_)));
    let mut replies = open_replies();
    replies.entry.verified = refused();
    assert!(drive(&transfer("40"), None, replies).is_ok());
}

#[test]
fn a_state_of_another_holder_is_loaded_again() {
    let mut replies = open_replies();
    replies.state.loaded = Ok(Some(balance("carol", "5", 4)));
    replies.state.reloaded = Ok(Some(balance("carol", "70", 1)));
    let events = drive(&transfer("40"), None, replies).unwrap();
    assert_eq!(events[0].after.state.payload.text_member("balance"), Some("30"));
}

fn bound(mut intent: Intent) -> Intent {
    intent.authority = Some(AuthorityProof {
        kind: String::from(TRUSTGRANT_EVALUATION_KIND),
        evaluation_digest: digest(3),
        result: EvaluationResult::Allow,
        evaluated_at: now(),
    });
    intent
}

#[test]
fn every_authority_is_heard() {
    let allow = |hour: &str| {
        Ok(TrustGrantOutcome {
            evaluation_digest: digest(4),
            result: EvaluationResult::Allow,
            evaluated_at: at(hour),
        })
    };
    let mut replies = open_replies();
    replies.authority.evaluations =
        vec![allow("2026-07-13T02:00:00Z"), allow("2026-07-13T01:00:00Z")];
    let events = drive(&bound(transfer("40")), None, replies).unwrap();
    let authority = events[1].authority.as_ref().unwrap();
    assert_eq!(authority.evaluation_digest, digest(7));
    assert_eq!(authority.evaluated_at, at("2026-07-13T01:00:00Z"));

    let mut replies = open_replies();
    replies.authority.evaluations =
        vec![allow("2026-07-13T02:00:00Z"), Err(TrustGrantError::Stale), Err(TrustGrantError::Denied)];
    let error = drive(&bound(transfer("40")), None, replies).unwrap_err();
    assert!(matches!(error, ExecutorError::AuthorityStale));

    let mut replies = open_replies();
    replies.authority.evaluations = vec![allow("2026-07-13T02:00:00Z")];
    replies.authority.fresh = Err(TrustGrantError::Denied);
    let error = drive(&bound(transfer("40")), None, replies).unwrap_err();
    assert!(matches!(error, ExecutorError::AuthorityDenied));
}

// --- Batches ----------------------------------------------------------------

fn item(tenant: &str, id: &str) -> BatchItem {
    BatchItem { tenant: TenantId(String::from(tenant)), intent_id: IntentId(String::from(id)) }
}

/// The events of a transfer within a tenant under an intent id.
fn pair(tenant: &str, id: &str) -> Vec<Event> {
    let mut intent = transfer("40");
    intent.tenant_id = TenantId(String::from(tenant));
    intent.intent_id = IntentId(String::from(id));
    let mut replies = open_replies();
    replies.events.seal = seal(&format!("evt_{}_{}_1", tenant, id), 10);
    replies.events.destination_seal = seal(&format!("evt_{}_{}_2", tenant, id), 20);
    drive(&intent, None, replies).unwrap()
}

fn batch_replies(outcomes: Vec<Outcome>) -> BatchReplies {
    BatchReplies {
        begun: Ok(()),
        outcomes,
        verdict: Ok(()),
        persisted: Ok(()),
        committed: Ok(()),
        rolled_back: Ok(()),
    }
}

#[test]
fn a_spanning_batch_groups_its_events_by_tenant() {
    let items = || vec![item("beta", "x"), item("alpha", "x"), item("beta", "y")];
    let outcomes = || {
        vec![
            Ok(pair("beta", "x")),
            Ok(pair("alpha", "x")),
            Ok(pair("beta", "y")),
        ]
    };
    let groups = run_batch(BatchKind::CrossTenantTrade, false, items(), batch_replies(outcomes()))
        .unwrap();
    let listed: Vec<(&str, Vec<&str>)> = groups
        .iter()
        .map(|group| {
            let ids = group.events.iter().map(|event| event.event_id.as_str()).collect();
            (group.tenant.as_str(), ids)
        })
        .collect();
    assert_eq!(
        listed,
        vec![
            ("alpha", vec!["evt_alpha_x_1", "evt_alpha_x_2"]),
            ("beta", vec!["evt_beta_x_1", "evt_beta_x_2", "evt_beta_y_1", "evt_beta_y_2"]),
        ]
    );
}

#[test]
fn one_failed_intent_fails_the_batch() {
    for failed in 0..3 {
        let mut outcomes: Vec<Outcome> = vec![
            Ok(pair("beta", "x")),
            Ok(pair("alpha", "x")),
            Ok(pair("beta", "y")),
        ];
        outcomes[failed] = Err(ExecutorError::StateTypeRequired);
        for durable in [false, true] {
            let items = vec![item("beta", "x"), item("alpha", "x"), item("beta", "y")];
            let result = run_batch(
                BatchKind::CrossTenantTrade,
                durable,
                items,
                batch_replies(outcomes.clone()),
            );
            match result {
                Err(ExecutorError::AtomicityViolation(text)) => {
                    assert_eq!(text, ExecutorError::StateTypeRequired.message());
                }
                _ => panic!("expected a violation"),
            }
        }
    }
}

#[test]
fn a_batch_succeeds_only_when_it_is_kept() {
    let items = || vec![item("alpha", "x")];
    let outcomes = || vec![Ok(pair("alpha", "x"))];
    let down = || Err(TransactionManagerError::Aborted);

    let mut replies = batch_replies(outcomes());
    replies.begun = down();
    assert!(matches!(
        run_batch(BatchKind::Batch, false, items(), replies),
        Err(ExecutorError::Store(_))
    ));
    let mut replies = batch_replies(outcomes());
    replies.committed = down();
    assert!(matches!(
        run_batch(BatchKind::Batch, false, items(), replies),
        Err(ExecutorError::Store(_))
    ));
    let mut replies = batch_replies(outcomes());
    replies.persisted = Err(String::from("disk full"));
    assert!(matches!(
        run_batch(BatchKind::Batch, true, items(), replies),
        Err(ExecutorError::Store(text)) if text == "disk full"
    ));
    let mut replies = batch_replies(outcomes());
    replies.verdict = Err(ExecutorError::TransferMismatch(String::from("m")));
    assert!(matches!(
        run_batch(BatchKind::Settle, false, items(), replies),
        Err(ExecutorError::AtomicityViolation(_))
    ));
    let groups = run_batch(BatchKind::Batch, false, items(), batch_replies(outcomes())).unwrap();
    assert_eq!(groups.len(), 1);
    assert_eq!(groups[0].events.len(), 2);
}

#[test]
fn a_replayed_leg_fails_a_spanning_batch() {
    let items = || vec![item("alpha", "x"), item("beta", "x"), item("gamma", "y"), item("gamma", "z")];
    let linked = |last: Vec<Event>| -> Vec<Outcome> {
        vec![Ok(pair("alpha", "x")), Ok(pair("beta", "x")), Ok(Vec::new()), Ok(last)]
    };
    for durable in [false, true] {
        let replies = batch_replies(linked(Vec::new()));
        match run_batch(BatchKind::CrossTenant, durable, items(), replies) {
            Err(ExecutorError::AtomicityViolation(text)) => assert_eq!(
                text,
                "atomicity violation: cross-tenant batch has no cross-tenant intent linkage"
            ),
            _ => panic!("expected a violation"),
        }
        let replies = batch_replies(linked(pair("gamma", "z")));
        let groups = run_batch(BatchKind::CrossTenant, durable, items(), replies).unwrap();
        assert_eq!(groups.len(), 3);
        assert_eq!(groups[2].events.len(), 2);
    }
}

#[test]
fn settlements_are_checked_against_their_settle_intents() {
    let numbered = |operation: &str, id: &str| {
        let mut made = intent(operation, StateType::UniqueAsset, 1, &[]);
        made.intent_id = IntentId(String::from(id));
        ValidatedIntent::from_intent(made, None)
    };
    let intents = vec![
        numbered("balance.transfer", "a"),
        numbered("trade.settle", "b"),
        numbered("trade.lock", "c"),
        numbered("trade.settle", "d"),
    ];
    let ids: Vec<&str> =
        settle_intents(&intents).iter().map(|found| found.intent_id.as_str()).collect();
    assert_eq!(ids, vec!["b", "d"]);
    assert!(settle_intents(&intents[..1]).is_empty());
}
