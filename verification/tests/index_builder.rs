use statechronicle::domain::commit::{Commit, CommitScope, ScopeKind, Signed};
use statechronicle::domain::digest::{ContentDigest, Signature, SignatureAlg, SignatureBlock};
use statechronicle::domain::event::Event;
use statechronicle::domain::ids::{
    CommitId, EventId, IntentId, KeyId, Operation, ResourceId, SubjectId, TenantId,
};
use statechronicle::domain::intent::{Intent, Nonce};
use statechronicle::domain::state::{ResourceState, StateCommitment, StateType};
use statechronicle::domain::time::{read_timestamp, Timestamp};
use statechronicle::index::builder::{apply, batch_trade_ids, rebuild, IngestBatch};
use statechronicle::index::error::IndexError;
use statechronicle::index::table::Table;
use statechronicle::index::trade::{TradeRecord, TradeStatus};
use statechronicle::json::{Fields, Value};

fn s(text: &str) -> Value {
    Value::text(text)
}

fn object(members: &[(&str, Value)]) -> Value {
    Value::object(inputs(members))
}

fn inputs(entries: &[(&str, Value)]) -> Fields {
    let mut fields = Fields::new();
    for (name, value) in entries {
        fields.insert(String::from(*name), value.clone());
    }
    fields
}

fn digest(text: &str) -> ContentDigest {
    let mut bytes = [0u8; 32];
    for (i, byte) in text.bytes().enumerate() {
        bytes[i] = byte;
    }
    ContentDigest::new(bytes)
}

fn tenant(name: &str) -> TenantId {
    TenantId(String::from(name))
}

fn now() -> Timestamp {
    read_timestamp("2026-07-14T00:00:01Z").unwrap().0
}

fn signed_commit(tenant_name: &str, id: &str) -> Signed<Commit> {
    let commit = Commit {
        scope: CommitScope::tenant(tenant(tenant_name)),
        commit_id: CommitId::new(String::from(id)).unwrap(),
        previous_commit: None,
        sequence: 1,
        event_count: 1,
        event_root: digest("event-root"),
        previous_state_root: digest("previous-root"),
        next_state_root: digest("next-root"),
        created_at: now(),
        committer: SubjectId(String::from("service:statechronicle.example.net")),
        profile: String::from("statechronicle.profile.resource.v0"),
    };
    Signed {
        body: commit,
        signature: SignatureBlock {
            alg: SignatureAlg::Ed25519,
            key_id: KeyId::new(String::from("did:key:z6Mk...#test")).unwrap(),
            sig: Signature { bytes: [0u8; 64] },
        },
    }
}

fn state(entries: &[(&str, &str)]) -> Value {
    let mut fields = Fields::new();
    for (name, text) in entries {
        fields.insert(String::from(*name), s(text));
    }
    Value::object(fields)
}

fn evt(
    id: &str,
    tenant_name: &str,
    op: &str,
    resource: &str,
    before: Value,
    after: Value,
    intent: &str,
) -> Event {
    let state_type = if op == "balance.transfer" {
        StateType::FungibleBalance
    } else {
        StateType::UniqueAsset
    };
    Event::new(
        tenant(tenant_name),
        EventId::new(format!("evt_{id}")).unwrap(),
        IntentId::new(format!("int_{intent}")).unwrap(),
        Operation::new(String::from(op)).unwrap(),
        ResourceId(String::from(resource)),
        SubjectId(String::from("account:example:player")),
        StateCommitment {
            version: 1,
            state_hash: digest("before"),
            state: ResourceState::new(state_type, before),
        },
        StateCommitment {
            version: 2,
            state_hash: digest("after"),
            state: ResourceState::new(state_type, after),
        },
        None,
        SubjectId(String::from("service:statechronicle.example.net")),
        now(),
    )
}

fn lock_event(
    id: &str,
    tenant_name: &str,
    resource: &str,
    trade_id: &str,
    owner: &str,
) -> Event {
    evt(
        id,
        tenant_name,
        "trade.lock",
        resource,
        state(&[("owner", owner), ("status", "active")]),
        state(&[
            ("owner", owner),
            ("status", "trade_held"),
            ("trade_id", trade_id),
        ]),
        &format!("{id}_lock"),
    )
}

fn settle_event(
    id: &str,
    tenant_name: &str,
    resource: &str,
    trade_id: &str,
    from: &str,
    to: &str,
) -> Event {
    evt(
        id,
        tenant_name,
        "trade.settle",
        resource,
        state(&[
            ("owner", from),
            ("status", "trade_held"),
            ("trade_id", trade_id),
        ]),
        state(&[("owner", to), ("status", "active")]),
        &format!("{id}_settle"),
    )
}

fn unlock_event(
    id: &str,
    tenant_name: &str,
    resource: &str,
    trade_id: &str,
    owner: &str,
) -> Event {
    evt(
        id,
        tenant_name,
        "trade.unlock",
        resource,
        state(&[
            ("owner", owner),
            ("status", "trade_held"),
            ("trade_id", trade_id),
        ]),
        state(&[("owner", owner), ("status", "active")]),
        &format!("{id}_unlock"),
    )
}

fn value_pair_event(
    id: &str,
    tenant_name: &str,
    subject: &str,
    before: &str,
    after: &str,
    intent: &str,
) -> Event {
    evt(
        id,
        tenant_name,
        "balance.transfer",
        "wallet:gold",
        state(&[
            ("subject", subject),
            ("balance", before),
            ("unit", "gold_minor"),
        ]),
        state(&[
            ("subject", subject),
            ("balance", after),
            ("unit", "gold_minor"),
        ]),
        intent,
    )
}

fn batch(
    events: Vec<Event>,
    settle_intents: Vec<Intent>,
    tenant_name: &str,
    commit_id: &str,
) -> IngestBatch {
    IngestBatch {
        events,
        settle_intents,
        commit: signed_commit(tenant_name, commit_id),
    }
}

fn value_settle_intent(
    trade_id: &str,
    resource: &str,
    amount: &str,
    to_subject: &str,
) -> Intent {
    let mut inputs = Fields::new();
    inputs.insert(String::from("trade_id"), s(trade_id));
    inputs.insert(
        String::from("value_resource"),
        s(resource),
    );
    inputs.insert(String::from("value_amount"), s(amount));
    inputs.insert(
        String::from("value_to_subject"),
        s(to_subject),
    );
    Intent::new(
        tenant("acme.game.alpha"),
        IntentId::new(String::from("int_settle_value")).unwrap(),
        Operation::new(String::from("trade.settle")).unwrap(),
        SubjectId(String::from("account:example:player")),
        ResourceId(String::from("asset:sword")),
        Some(StateType::UniqueAsset),
        1,
        inputs,
        None,
        now(),
        None,
        Nonce::from_bytes(vec![0]),
    )
}

#[test]
fn lock_opens_a_record() {
    let mut state: Table<TradeRecord> = Table::new();
    let batch = batch(
        vec![lock_event(
            "a",
            "acme.game.alpha",
            "asset:sword",
            "trade_001",
            "alice",
        )],
        Vec::new(),
        "acme.game.alpha",
        "cmt_00000000000000000001",
    );
    apply(&mut state, &batch).unwrap();
    let record = state.get("trade_001").unwrap();
    assert_eq!(record.status, TradeStatus::Open);
    assert_eq!(record.events.len(), 1);
    assert_eq!(record.events[0].operation.as_str(), "trade.lock");
    assert!(record.sides.is_empty());
}

#[test]
fn settle_sets_status_and_side() {
    let mut state: Table<TradeRecord> = Table::new();
    apply(
        &mut state,
        &batch(
            vec![lock_event(
                "a",
                "acme.game.alpha",
                "asset:sword",
                "trade_001",
                "alice",
            )],
            Vec::new(),
            "acme.game.alpha",
            "cmt_00000000000000000001",
        ),
    )
    .unwrap();
    apply(
        &mut state,
        &batch(
            vec![settle_event(
                "b",
                "acme.game.alpha",
                "asset:sword",
                "trade_001",
                "alice",
                "bob",
            )],
            Vec::new(),
            "acme.game.alpha",
            "cmt_00000000000000000002",
        ),
    )
    .unwrap();
    let record = state.get("trade_001").unwrap();
    assert_eq!(record.status, TradeStatus::Settled);
    assert_eq!(record.sides.len(), 1);
    assert_eq!(record.sides[0].tenant, tenant("acme.game.alpha"));
    assert_eq!(record.sides[0].settle_assets[0].0, "asset:sword");
    assert_eq!(record.sides[0].from_owner, "alice");
    assert_eq!(record.sides[0].to_owner, "bob");
    assert_eq!(record.events.len(), 2);
    assert_eq!(record.events[0].operation.as_str(), "trade.lock");
    assert_eq!(record.events[1].operation.as_str(), "trade.settle");
}

#[test]
fn unlock_cancels() {
    let mut state: Table<TradeRecord> = Table::new();
    apply(
        &mut state,
        &batch(
            vec![lock_event(
                "a",
                "acme.game.alpha",
                "asset:sword",
                "trade_001",
                "alice",
            )],
            Vec::new(),
            "acme.game.alpha",
            "cmt_00000000000000000001",
        ),
    )
    .unwrap();
    apply(
        &mut state,
        &batch(
            vec![unlock_event(
                "c",
                "acme.game.alpha",
                "asset:sword",
                "trade_001",
                "alice",
            )],
            Vec::new(),
            "acme.game.alpha",
            "cmt_00000000000000000003",
        ),
    )
    .unwrap();
    let record = state.get("trade_001").unwrap();
    assert_eq!(record.status, TradeStatus::Cancelled);
    assert!(record.sides.is_empty());
}

#[test]
fn value_leg_attributed_from_settle_intent() {
    let mut state: Table<TradeRecord> = Table::new();
    let intent = value_settle_intent("trade_001", "wallet:gold", "100", "alice");
    // One batch: the settle event + the value pair + the declaring intent.
    let settle = settle_event(
        "s",
        "acme.game.alpha",
        "asset:sword",
        "trade_001",
        "alice",
        "bob",
    );
    let pair = vec![
        value_pair_event("p1", "acme.game.beta", "bob", "1000", "900", "vleg"),
        value_pair_event("p2", "acme.game.beta", "alice", "0", "100", "vleg"),
    ];
    let mut events = Vec::new();
    events.push(settle);
    events.extend(pair);
    apply(
        &mut state,
        &batch(
            events,
            vec![intent],
            "acme.game.beta",
            "cmt_00000000000000000009",
        ),
    )
    .unwrap();
    let record = state.get("trade_001").unwrap();
    assert_eq!(record.value_legs.len(), 1);
    let leg = &record.value_legs[0];
    assert_eq!(leg.amount, "100");
    assert_eq!(leg.resource.0, "wallet:gold");
    assert_eq!(leg.to_subject.0, "alice");
    assert_eq!(leg.tenant, tenant("acme.game.beta"));
    assert_eq!(leg.pair_event_ids.len(), 2);
    // Value pair events come after the settle in canonical order.
    assert_eq!(record.events[0].operation.as_str(), "trade.settle");
    assert_eq!(record.events[1].operation.as_str(), "balance.transfer");
}

#[test]
fn value_leg_matches_across_tenant_batches() {
    let mut state: Table<TradeRecord> = Table::new();
    let intent = value_settle_intent("trade_001", "wallet:gold", "100", "alice");
    // Alpha batch: the settle event + declaring intent (no pair present).
    apply(
        &mut state,
        &batch(
            vec![settle_event(
                "s",
                "acme.game.alpha",
                "asset:sword",
                "trade_001",
                "alice",
                "bob",
            )],
            vec![intent.clone()],
            "acme.game.alpha",
            "cmt_0000000000000000000a",
        ),
    )
    .unwrap();
    // Beta batch: the value pair + the declaring intent.
    let pair = vec![
        value_pair_event("p1", "acme.game.beta", "bob", "1000", "900", "vleg"),
        value_pair_event("p2", "acme.game.beta", "alice", "0", "100", "vleg"),
    ];
    apply(
        &mut state,
        &batch(
            pair,
            vec![intent],
            "acme.game.beta",
            "cmt_0000000000000000000b",
        ),
    )
    .unwrap();
    let record = state.get("trade_001").unwrap();
    assert_eq!(record.status, TradeStatus::Settled);
    assert_eq!(record.sides.len(), 1);
    assert_eq!(record.value_legs.len(), 1);
    assert_eq!(record.value_legs[0].tenant, tenant("acme.game.beta"));
    // Canonical order: settle then value pair.
    assert_eq!(record.events[0].operation.as_str(), "trade.settle");
    assert_eq!(record.events[1].operation.as_str(), "balance.transfer");
}

/// A tenant settling two assets of one trade in two different
/// commits must pin each asset to the commit that settled it, so a later
/// `get_proof` fetches each asset's state proof at its own commit rather
/// than the side's first commit.
#[test]
fn per_asset_commit_tracks_two_commits_for_one_tenant() {
    let mut state: Table<TradeRecord> = Table::new();
    // Asset one settled at commit ...01.
    apply(
        &mut state,
        &batch(
            vec![settle_event(
                "s1",
                "acme.game.alpha",
                "asset:sword",
                "trade_001",
                "alice",
                "bob",
            )],
            Vec::new(),
            "acme.game.alpha",
            "cmt_00000000000000000001",
        ),
    )
    .unwrap();
    // Asset two of the SAME trade, same tenant, at a DIFFERENT commit.
    apply(
        &mut state,
        &batch(
            vec![settle_event(
                "s2",
                "acme.game.alpha",
                "asset:shield",
                "trade_001",
                "alice",
                "bob",
            )],
            Vec::new(),
            "acme.game.alpha",
            "cmt_00000000000000000002",
        ),
    )
    .unwrap();

    let record = state.get("trade_001").unwrap();
    assert_eq!(record.status, TradeStatus::Settled);
    assert_eq!(record.sides.len(), 1);
    let side = &record.sides[0];
    assert_eq!(side.settle_assets.len(), 2);
    assert_eq!(side.settle_assets[0].0, "asset:sword");
    assert_eq!(side.settle_assets[1].0, "asset:shield");
    // The representative settle_commit stays the first commit, but each
    // asset is pinned to the commit that actually settled it.
    assert_eq!(
        side.settle_commit.commit_id.as_str(),
        "cmt_00000000000000000001"
    );
    assert_eq!(
        side.settle_commits_by_asset
            .get("asset:sword")
            .unwrap()
            .commit_id
            .as_str(),
        "cmt_00000000000000000001"
    );
    assert_eq!(
        side.settle_commits_by_asset
            .get("asset:shield")
            .unwrap()
            .commit_id
            .as_str(),
        "cmt_00000000000000000002"
    );
}

/// Derives a deterministic batch from a byte slice using fixed event
/// templates, so the builder is exercised over arbitrary shapes.
fn batch_from_bytes(data: &[u8]) -> IngestBatch {
    let tenant_name = if data.first().copied().unwrap_or(0) % 2 == 0 {
        "acme.game.alpha"
    } else {
        "acme.game.beta"
    };
    let trade = format!("trade_{:03}", data.get(1).copied().unwrap_or(0) % 7);
    let mut events = Vec::new();
    if data.len() > 2 && data[2] % 3 != 0 {
        events.push(lock_event(
            "f1",
            tenant_name,
            "asset:sword",
            &trade,
            "alice",
        ));
    }
    if data.len() > 3 && data[3] % 2 == 0 {
        events.push(settle_event(
            "f2",
            tenant_name,
            "asset:sword",
            &trade,
            "alice",
            "bob",
        ));
    } else if data.len() > 3 {
        events.push(unlock_event(
            "f2",
            tenant_name,
            "asset:sword",
            &trade,
            "alice",
        ));
    }
    let mut settle_intents = Vec::new();
    if data.len() > 4 && data[4] % 2 == 0 {
        let amount = (data.get(5).copied().unwrap_or(0) % 100).to_string();
        settle_intents.push(value_settle_intent(&trade, "wallet:gold", &amount, "alice"));
    }
    IngestBatch {
        events,
        settle_intents,
        commit: signed_commit(tenant_name, "cmt_0000000000000000000c"),
    }
}

fn partition_into_batches(data: &[u8]) -> Vec<IngestBatch> {
    if data.len() < 3 {
        return vec![batch_from_bytes(data)];
    }
    let mut batches = Vec::new();
    for window in data.chunks(6) {
        batches.push(batch_from_bytes(window));
    }
    batches
}

/// Incremental ingestion, each batch on the records it touches, gives the
/// same index as a rebuild of the whole stream.
#[test]
fn incremental_equals_rebuild_and_is_deterministic() {
    let mut seed: u32 = 1;
    for length in 0..60usize {
        let mut data: Vec<u8> = Vec::new();
        for _ in 0..length {
            seed = seed.wrapping_mul(1_103_515_245).wrapping_add(12_345);
            data.push((seed >> 16) as u8);
        }
        let batches = partition_into_batches(&data);
        let mut incremental: Table<TradeRecord> = Table::new();
        for b in &batches {
            let mut seeded: Table<TradeRecord> = Table::new();
            for trade_id in batch_trade_ids(b) {
                if let Some(record) = incremental.get(&trade_id) {
                    seeded.insert(trade_id.clone(), record.clone());
                }
            }
            apply(&mut seeded, b).unwrap();
            for trade_id in seeded.keys() {
                let record = seeded.get(&trade_id).unwrap().clone();
                incremental.insert(trade_id, record);
            }
        }
        let rebuilt = rebuild(&batches).unwrap();
        assert_eq!(incremental, rebuilt);
    }
}

fn one_trade(events: Vec<Event>, intents: Vec<Intent>) -> Result<Table<TradeRecord>, IndexError> {
    let mut state: Table<TradeRecord> = Table::new();
    apply(
        &mut state,
        &batch(events, intents, "acme.game.alpha", "cmt_00000000000000000001"),
    )?;
    Ok(state)
}

#[test]
fn commits_of_the_whole_ledger_are_refused() {
    let mut refused = batch(Vec::new(), Vec::new(), "acme.game.alpha", "cmt_01");
    refused.commit.body.scope.kind = ScopeKind::Ledger;
    let mut state: Table<TradeRecord> = Table::new();
    assert_eq!(
        apply(&mut state, &refused),
        Err(IndexError::NonTenantCommit(String::from("cmt_01")))
    );
    refused.commit.body.scope.kind = ScopeKind::Tenant;
    refused.commit.body.scope.tenant_id = None;
    assert_eq!(
        apply(&mut state, &refused),
        Err(IndexError::NonTenantCommit(String::from(
            "tenant-scoped commit is missing its tenant id"
        )))
    );
}

#[test]
fn trade_events_without_a_trade_are_refused() {
    let event = evt(
        "x",
        "acme.game.alpha",
        "trade.lock",
        "asset:sword",
        state(&[("owner", "alice")]),
        state(&[("owner", "alice")]),
        "x",
    );
    assert_eq!(
        one_trade(vec![event], Vec::new()),
        Err(IndexError::MissingTradeId(String::from(
            "trade.lock event `evt_x` is missing `trade_id` in its after state"
        )))
    );
}

#[test]
fn settlements_without_owners_leave_earlier_trades_applied() {
    let mut state: Table<TradeRecord> = Table::new();
    let broken = evt(
        "b",
        "acme.game.alpha",
        "trade.settle",
        "asset:bow",
        object(&[("trade_id", s("trade_b"))]),
        object(&[("owner", s("bob"))]),
        "b",
    );
    let events = vec![
        lock_event("c", "acme.game.alpha", "asset:axe", "trade_c", "carol"),
        broken,
        lock_event("a", "acme.game.alpha", "asset:sword", "trade_a", "alice"),
    ];
    assert_eq!(
        apply(
            &mut state,
            &batch(events, Vec::new(), "acme.game.alpha", "cmt_01")
        ),
        Err(IndexError::MalformedValue(String::from(
            "trade settle event state is missing a non-empty `owner`"
        )))
    );
    assert_eq!(
        state.keys(),
        vec![String::from("trade_a"), String::from("trade_b")]
    );
    assert_eq!(state.get("trade_b").unwrap().status, TradeStatus::Settled);
    assert!(state.get("trade_b").unwrap().sides.is_empty());
}

#[test]
fn unpaired_and_malformed_transfers_are_refused() {
    let single = value_pair_event("p1", "acme.game.alpha", "bob", "1000", "900", "vleg");
    assert_eq!(
        one_trade(vec![single.clone()], Vec::new()),
        Err(IndexError::MalformedValue(String::from(
            "balance.transfer intent `int_vleg` is not an atomic debit + credit pair"
        )))
    );
    let malformed = value_pair_event("p2", "acme.game.alpha", "alice", "0", "01", "vleg");
    assert_eq!(
        one_trade(vec![single, malformed], Vec::new()),
        Err(IndexError::MalformedValue(String::from("malformed `balance` amount")))
    );
    let most = u128::MAX.to_string();
    let overflow = vec![
        value_pair_event("p1", "acme.game.alpha", "bob", &most, "0", "vleg"),
        value_pair_event("p2", "acme.game.alpha", "alice", "1", "0", "vleg"),
    ];
    assert_eq!(
        one_trade(overflow, Vec::new()),
        Err(IndexError::MalformedValue(String::from("debit overflow")))
    );
}

#[test]
fn partial_declarations_are_refused() {
    let mut partial = value_settle_intent("trade_001", "wallet:gold", "100", "alice");
    partial.inputs = inputs(&[("value_amount", s("100"))]);
    assert_eq!(
        one_trade(Vec::new(), vec![partial]),
        Err(IndexError::MalformedValue(String::from(
            "settle intent `int_settle_value` is missing a non-empty `value_resource` input"
        )))
    );
    let malformed = value_settle_intent("trade_001", "wallet:gold", "1.5", "alice");
    assert_eq!(
        one_trade(Vec::new(), vec![malformed]),
        Err(IndexError::MalformedValue(String::from("malformed value_amount `1.5`")))
    );
}

#[test]
fn sides_come_in_tenant_order_and_batches_leave_other_trades() {
    let mut index: Table<TradeRecord> = Table::new();
    apply(
        &mut index,
        &batch(
            vec![lock_event("o", "acme.game.alpha", "asset:axe", "trade_other", "carol")],
            Vec::new(),
            "acme.game.alpha",
            "cmt_01",
        ),
    )
    .unwrap();
    let other = index.get("trade_other").unwrap().clone();
    let settles = vec![
        settle_event("z", "tenant.z", "asset:bow", "trade_001", "bob", "alice"),
        settle_event("a", "tenant.a", "asset:sword", "trade_001", "alice", "bob"),
    ];
    let b = batch(settles, Vec::new(), "tenant.a", "cmt_02");
    assert_eq!(batch_trade_ids(&b), vec![String::from("trade_001")]);
    apply(&mut index, &b).unwrap();
    let record = index.get("trade_001").unwrap();
    assert_eq!(record.sides[0].tenant, tenant("tenant.a"));
    assert_eq!(record.sides[1].tenant, tenant("tenant.z"));
    assert_eq!(*index.get("trade_other").unwrap(), other);
}

#[test]
fn tables_keep_one_value_per_key_in_key_order() {
    let mut table: Table<u32> = Table::new();
    table.insert(String::from("b"), 1);
    table.insert(String::from("a"), 2);
    table.insert(String::from("b"), 3);
    assert_eq!(table.keys(), vec![String::from("a"), String::from("b")]);
    assert_eq!(table.get("b"), Some(&3));
    assert_eq!(table.get("c"), None);
    assert_eq!(table.remove("a"), Some(2));
    assert_eq!(table.remove("a"), None);
    assert_eq!(table.clone().keys(), vec![String::from("b")]);
}

#[test]
fn unmatched_declarations_and_pairs_hide_no_leg() {
    let declared = || {
        vec![
            value_settle_intent("trade_a", "wallet:gold", "50", "alice"),
            value_settle_intent("trade_b", "wallet:gold", "100", "alice"),
            value_settle_intent("trade_c", "wallet:gold", "300", "alice"),
        ]
    };
    let pair = |id: &str, before: &str, after: &str, gain: &str| {
        vec![
            value_pair_event(&format!("{id}1"), "acme.game.beta", "bob", before, after, id),
            value_pair_event(&format!("{id}2"), "acme.game.beta", "alice", "0", gain, id),
        ]
    };
    let commit = "cmt_0000000000000000000c";
    let mut state: Table<TradeRecord> = Table::new();
    let events = pair("b", "1000", "900", "100");
    apply(&mut state, &batch(events, declared(), "acme.game.beta", commit)).unwrap();
    assert_eq!(state.get("trade_b").unwrap().value_legs.len(), 1);
    assert!(state.get("trade_a").is_none());
    assert!(state.get("trade_c").is_none());

    let mut events = pair("a", "1000", "950", "50");
    events.extend(pair("x", "1000", "800", "200"));
    events.extend(pair("c", "1000", "700", "300"));
    apply(&mut state, &batch(events, declared(), "acme.game.beta", commit)).unwrap();
    for trade in ["trade_a", "trade_b", "trade_c"] {
        assert_eq!(state.get(trade).unwrap().value_legs.len(), 1);
    }
    assert_eq!(state.get("trade_c").unwrap().value_legs[0].amount, "300");
}

#[test]
fn equal_keys_are_matched_one_for_one() {
    let declared: Vec<Intent> = ["trade_a", "trade_b", "trade_c"]
        .iter()
        .map(|trade| value_settle_intent(trade, "wallet:gold", "100", "alice"))
        .collect();
    let mut events = Vec::new();
    for id in ["p", "q"] {
        let from = format!("{id}1");
        let to = format!("{id}2");
        events.push(value_pair_event(&from, "acme.game.beta", "bob", "1000", "900", id));
        events.push(value_pair_event(&to, "acme.game.beta", "alice", "0", "100", id));
    }
    let mut state: Table<TradeRecord> = Table::new();
    let commit = "cmt_0000000000000000000d";
    apply(&mut state, &batch(events, declared, "acme.game.beta", commit)).unwrap();
    assert_eq!(state.get("trade_a").unwrap().value_legs.len(), 1);
    assert_eq!(state.get("trade_b").unwrap().value_legs.len(), 1);
    assert!(state.get("trade_c").is_none());
}
