use statechronicle::domain::commit::CommitRef;
use statechronicle::domain::digest::{ContentDigest, Signature, SignatureAlg, SignatureBlock};
use statechronicle::domain::error::DomainError;
use statechronicle::domain::event::Event;
use statechronicle::domain::ids::{
    CommitId, EventId, IntentId, KeyId, Operation, ResourceId, SubjectId, TenantId,
};
use statechronicle::domain::state::{ResourceState, StateCommitment, StateType};
use statechronicle::domain::time::read_timestamp;
use statechronicle::index::error::{IndexError, ProofError, TradeServiceError};
use statechronicle::index::history::{
    collect_commits, find_event, reconstruct_history, EventsById,
};
use statechronicle::index::service::{
    begin_history, commit_reply, commits_to_load, index_reply, key_reply, proof_reply,
    proof_requests, HistoryStep, ProofRequest,
};
use statechronicle::index::table::Table;
use statechronicle::index::trade::{
    TradeEventRef, TradeHistory, TradeRecord, TradeSide, TradeStatus, TradeValueLeg,
};
use statechronicle::json::{Fields, Value};
use statechronicle::ports::errors::{
    CommitStoreError, EventStoreError, ProofIndexError, TradeIndexError,
};

fn tenant(name: &str) -> TenantId {
    TenantId(String::from(name))
}

fn commit_ref(id: &str, sequence: u64) -> CommitRef {
    CommitRef {
        commit_id: CommitId(String::from(id)),
        sequence,
        state_root: ContentDigest::new([sequence as u8; 32]),
        signature: SignatureBlock {
            alg: SignatureAlg::Ed25519,
            key_id: KeyId(String::from("did:key:z6Mk...#test")),
            sig: Signature { bytes: [0u8; 64] },
        },
    }
}

fn commitment(version: u64) -> StateCommitment {
    StateCommitment {
        version,
        state_hash: ContentDigest::new([version as u8; 32]),
        state: ResourceState::new(StateType::UniqueAsset, Value::object(Fields::new())),
    }
}

fn event(tenant_name: &str, id: &str, operation: &str) -> Event {
    Event::new(
        tenant(tenant_name),
        EventId(String::from(id)),
        IntentId(String::from("int_1")),
        Operation(String::from(operation)),
        ResourceId(String::from("asset:sword")),
        SubjectId(String::from("account:example:player")),
        commitment(1),
        commitment(2),
        None,
        SubjectId(String::from("service:example")),
        read_timestamp("2026-07-14T00:00:01Z").unwrap().0,
    )
}

fn reference(tenant_name: &str, id: &str, operation: &str) -> TradeEventRef {
    TradeEventRef {
        event_id: EventId(String::from(id)),
        tenant_id: tenant(tenant_name),
        operation: Operation(String::from(operation)),
    }
}

fn side(tenant_name: &str, assets: &[(&str, &str)], commit: &str, sequence: u64) -> TradeSide {
    let mut commits = Table::new();
    for (i, (asset, own)) in assets.iter().enumerate() {
        commits.insert(String::from(*asset), commit_ref(own, sequence + i as u64));
    }
    TradeSide {
        tenant: tenant(tenant_name),
        settle_assets: assets.iter().map(|(asset, _)| ResourceId(String::from(*asset))).collect(),
        from_owner: String::from("alice"),
        to_owner: String::from("bob"),
        settle_commit: commit_ref(commit, sequence),
        settle_commits_by_asset: commits,
        settle_event_ids: Vec::new(),
    }
}

fn leg(tenant_name: &str, commit: &str) -> TradeValueLeg {
    TradeValueLeg {
        resource: ResourceId(String::from("currency:gold")),
        amount: String::from("5"),
        to_subject: SubjectId(String::from("alice")),
        pair_event_ids: Vec::new(),
        tenant: tenant(tenant_name),
        commit: commit_ref(commit, 4),
    }
}

/// A settled trade over two tenants.
fn record() -> TradeRecord {
    let mut record = TradeRecord::new(String::from("trade_1"));
    record.status = TradeStatus::Settled;
    record.sides.push(side("alpha", &[("asset:sword", "c1"), ("asset:bow", "c2")], "c1", 1));
    record.sides.push(side("beta", &[], "c9", 9));
    record.value_legs.push(leg("beta", "c9"));
    record.value_legs.push(leg("gamma", "c1"));
    record.events.push(reference("alpha", "evt_1", "asset.lock"));
    record.events.push(reference("beta", "evt_1", "balance.transfer"));
    record.events.push(reference("alpha", "evt_2", "trade.settle"));
    record
}

fn events_by_id(list: &[(&str, &str, &str)]) -> EventsById {
    let mut all: EventsById = Table::new();
    for (tenant_name, id, operation) in list {
        let mut own = match all.remove(tenant_name) {
            Some(own) => own,
            None => Table::new(),
        };
        own.insert(String::from(*id), event(tenant_name, id, operation));
        all.insert(String::from(*tenant_name), own);
    }
    all
}

// --- Errors -----------------------------------------------------------------

#[test]
fn index_error_display_messages() {
    assert_eq!(
        IndexError::MissingTradeId(String::from("evt_1")).message(),
        "trade event is missing its trade_id: evt_1"
    );
    assert_eq!(
        IndexError::MalformedValue(String::from("bad amount")).message(),
        "malformed trade value leg or pair: bad amount"
    );
}

#[test]
fn service_error_display_messages() {
    assert_eq!(
        TradeServiceError::EventStore(String::from("down")).message(),
        "event store unavailable: down"
    );
    assert_eq!(
        TradeServiceError::MissingEvent(String::from("evt_9")).message(),
        "missing event `evt_9` in event store during history reconstruction"
    );
}

#[test]
fn inner_errors_are_rendered_as_they_are() {
    let inner = DomainError::InvalidId(String::from("int_"));
    let text = inner.message();
    assert_eq!(IndexError::Domain(inner.clone()).message(), text);
    assert_eq!(TradeServiceError::Domain(inner.clone()).message(), text);
    assert_eq!(TradeServiceError::Index(IndexError::Domain(inner)).message(), text);
    assert_eq!(
        IndexError::NonTenantCommit(String::from("c1")).message(),
        "trade batch commit is not tenant-scoped: c1"
    );
    assert_eq!(
        IndexError::MissingEvent(String::from("evt_1")).message(),
        "missing event `evt_1` during history reconstruction"
    );
    assert_eq!(
        TradeServiceError::Proof(ProofError::Invalid(String::from("bad path"))).message(),
        "bad path"
    );
}

// --- History ----------------------------------------------------------------

#[test]
fn histories_list_events_in_record_order() {
    let events = events_by_id(&[
        ("alpha", "evt_2", "trade.settle"),
        ("beta", "evt_1", "balance.transfer"),
        ("alpha", "evt_1", "asset.lock"),
        ("alpha", "evt_7", "asset.mint"),
    ]);
    let history = reconstruct_history(&record(), &events).unwrap();
    assert_eq!(history.trade_id, "trade_1");
    assert!(matches!(history.status, TradeStatus::Settled));
    let listed: Vec<(&str, &str, &str)> = history
        .events
        .iter()
        .map(|entry| {
            (
                entry.tenant_id.as_str(),
                entry.event.event_id.as_str(),
                entry.event.operation.as_str(),
            )
        })
        .collect();
    assert_eq!(
        listed,
        vec![
            ("alpha", "evt_1", "asset.lock"),
            ("beta", "evt_1", "balance.transfer"),
            ("alpha", "evt_2", "trade.settle"),
        ]
    );
}

#[test]
fn a_history_needs_every_event() {
    let events = events_by_id(&[("alpha", "evt_1", "asset.lock"), ("alpha", "evt_2", "x.y")]);
    match reconstruct_history(&record(), &events) {
        Err(IndexError::MissingEvent(id)) => assert_eq!(id, "evt_1"),
        _ => panic!("expected a missing event"),
    }
    assert!(find_event(&events, "beta", "evt_1").is_none());
    assert!(find_event(&events, "alpha", "evt_1").is_some());
}

#[test]
fn commits_are_listed_once_per_tenant() {
    let commits = collect_commits(&record());
    let listed: Vec<(&str, &str)> = commits
        .iter()
        .map(|(scope, commit)| (scope.as_str(), commit.commit_id.as_str()))
        .collect();
    assert_eq!(listed, vec![("alpha", "c1"), ("beta", "c9"), ("gamma", "c1")]);
}

fn drive_history(
    record: TradeRecord,
    events: &EventsById,
    store_up: bool,
) -> (Result<TradeHistory, TradeServiceError>, Vec<String>) {
    let mut asked = Vec::new();
    let mut step = begin_history(record);
    loop {
        step = match step {
            HistoryStep::FindEvent(wait) => {
                let scope = wait.reference().tenant_id.0.clone();
                let id = wait.reference().event_id.0.clone();
                asked.push(format!("{}/{}", scope, id));
                if store_up {
                    let found = find_event(events, &scope, &id).cloned();
                    wait.resume(Ok(found))
                } else {
                    wait.resume(Err(EventStoreError::Unavailable(String::from("db down"))))
                }
            }
            HistoryStep::Done(result) => return (result, asked),
        };
    }
}

#[test]
fn the_service_resolves_every_reference() {
    let events = events_by_id(&[
        ("alpha", "evt_1", "asset.lock"),
        ("beta", "evt_1", "balance.transfer"),
        ("alpha", "evt_2", "trade.settle"),
    ]);
    let (result, asked) = drive_history(record(), &events, true);
    assert_eq!(asked, vec!["alpha/evt_1", "beta/evt_1", "alpha/evt_2"]);
    let served = result.unwrap();
    let direct = reconstruct_history(&record(), &events).unwrap();
    assert_eq!(served.events.len(), direct.events.len());
    for (one, two) in served.events.iter().zip(direct.events.iter()) {
        assert_eq!(one.event, two.event);
        assert_eq!(one.tenant_id, two.tenant_id);
    }
    assert_eq!(served.commits.len(), direct.commits.len());

    let (result, asked) =
        drive_history(TradeRecord::new(String::from("trade_2")), &events, true);
    assert!(result.unwrap().events.is_empty());
    assert!(asked.is_empty());
}

#[test]
fn a_history_stops_at_the_first_event_it_lacks() {
    let events = events_by_id(&[("alpha", "evt_1", "asset.lock")]);
    let (result, asked) = drive_history(record(), &events, true);
    match result {
        Err(TradeServiceError::MissingEvent(id)) => assert_eq!(id, "evt_1"),
        _ => panic!("expected a missing event"),
    }
    assert_eq!(asked.len(), 2);

    let (result, asked) = drive_history(record(), &events, false);
    match result {
        Err(TradeServiceError::EventStore(detail)) => {
            assert_eq!(detail, "event store unavailable: db down");
        }
        _ => panic!("expected the store's error"),
    }
    assert_eq!(asked.len(), 1);
}

// --- Proofs -----------------------------------------------------------------

#[test]
fn proofs_are_fetched_at_the_commit_that_settled_each_asset() {
    let groups = proof_requests(&record());
    assert_eq!(groups.len(), 1);
    let listed: Vec<(&str, &str, &str)> = groups[0]
        .iter()
        .map(|request| {
            (request.tenant.as_str(), request.asset.as_str(), request.commit_id.as_str())
        })
        .collect();
    assert_eq!(
        listed,
        vec![("alpha", "asset:sword", "c1"), ("alpha", "asset:bow", "c2")]
    );
}

#[test]
fn an_asset_without_a_commit_of_its_own_takes_that_of_its_side() {
    let mut record = TradeRecord::new(String::from("trade_1"));
    let mut only = side("alpha", &[], "c5", 5);
    only.settle_assets.push(ResourceId(String::from("asset:ring")));
    record.sides.push(only);
    let groups = proof_requests(&record);
    assert_eq!(groups[0][0].commit_id.as_str(), "c5");
}

#[test]
fn a_missing_proof_is_an_error() {
    let request = ProofRequest {
        tenant: tenant("alpha"),
        asset: ResourceId(String::from("asset:sword")),
        commit_id: CommitId(String::from("c1")),
    };
    assert_eq!(proof_reply(&request, Ok(Some(7u8))).unwrap(), 7);
    let missing: Result<u8, TradeServiceError> = proof_reply(&request, Ok(None));
    match missing {
        Err(TradeServiceError::ProofIndex(detail)) => assert_eq!(
            detail,
            "no state proof stored for settle asset `asset:sword` in tenant `alpha` at commit `c1`"
        ),
        _ => panic!("expected a missing proof"),
    }
    let failed: Result<u8, TradeServiceError> =
        proof_reply(&request, Err(ProofIndexError::NotFound));
    assert!(matches!(failed, Err(TradeServiceError::ProofIndex(_))));
}

#[test]
fn each_tenant_is_verified_under_its_first_leg() {
    let pair = |scope: &str, commit: &str| (tenant(scope), CommitId(String::from(commit)));
    let legs = vec![pair("b", "c1"), pair("a", "c2"), pair("b", "c3"), pair("c", "c1"), pair("a", "c2")];
    assert_eq!(commits_to_load(&legs), vec![0, 1, 3]);
    assert!(commits_to_load(&Vec::new()).is_empty());

    let commit_id = CommitId(String::from("c1"));
    assert_eq!(commit_reply(&tenant("b"), &commit_id, Ok(Some(3u8))).unwrap(), 3);
    let missing: Result<u8, TradeServiceError> = commit_reply(&tenant("b"), &commit_id, Ok(None));
    match missing {
        Err(TradeServiceError::CommitStore(detail)) => {
            assert_eq!(detail, "commit `c1` not found for tenant `b`");
        }
        _ => panic!("expected a missing commit"),
    }
    let failed: Result<u8, TradeServiceError> =
        commit_reply(&tenant("b"), &commit_id, Err(CommitStoreError::Duplicate));
    assert!(matches!(failed, Err(TradeServiceError::CommitStore(_))));

    assert_eq!(key_reply(&tenant("b"), Some(1u8)).unwrap(), 1);
    let unknown: Result<u8, TradeServiceError> = key_reply(&tenant("b"), None);
    match unknown {
        Err(TradeServiceError::Proof(ProofError::KeyNotFound(name))) => assert_eq!(name, "b"),
        _ => panic!("expected an unknown key"),
    }
}

#[test]
fn index_failures_are_handed_on() {
    assert_eq!(index_reply(Ok(5u8)).unwrap(), 5);
    let failed: Result<u8, TradeServiceError> =
        index_reply(Err(TradeIndexError::Unavailable(String::from("db down"))));
    match failed {
        Err(TradeServiceError::TradeIndex(detail)) => {
            assert_eq!(detail, "trade index unavailable: db down");
        }
        _ => panic!("expected the index's error"),
    }
}

// --- Tables -----------------------------------------------------------------

#[test]
fn tables_hold_one_value_per_key_in_text_order() {
    let mut table: Table<u8> = Table::new();
    for (key, value) in [("b", 1), ("a", 2), ("b", 3), ("\u{e9}", 4)] {
        table.insert(String::from(key), value);
    }
    assert_eq!(table.keys(), vec!["a", "b", "\u{e9}"]);
    assert_eq!(table.get("b"), Some(&3));
    assert_eq!(table.remove("b"), Some(3));
    assert_eq!(table.get("b"), None);
    assert_eq!(table.remove("z"), None);
}
