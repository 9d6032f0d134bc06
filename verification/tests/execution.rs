use std::collections::{HashMap, HashSet};

use ed25519_dalek::{Signer, SigningKey, Verifier, VerifyingKey};

use statechronicle::domain::digest::{ContentDigest, Signature, SignatureAlg, SignatureBlock};
use statechronicle::domain::error::{ProfileError, StateChronicleError};
use statechronicle::domain::event::Event;
use statechronicle::domain::ids::{
    CommitId, EventId, IntentId, KeyId, Operation, ResourceId, SubjectId, TenantId,
};
use statechronicle::domain::intent::{
    AggregationPolicy, AuthorityProof, EvaluationResult, Intent, Nonce, TrustGrantOutcome,
    TRUSTGRANT_EVALUATION_KIND,
};
use statechronicle::domain::state::{ResourceState, StateProjection, StateType};
use statechronicle::domain::time::{read_timestamp, Timestamp};
use statechronicle::executor::atomicity::{validate_batch_consistency, TenantEventGroup};
use statechronicle::executor::batch::{begin_batch, BatchItem, BatchKind, BatchStep};
use statechronicle::executor::error::ExecutorError;
use statechronicle::executor::execution::{begin, RuleFacts, Run, Seal, Step};
use statechronicle::executor::transition::{state_key_for, transfer_after_state, StateKey};
use statechronicle::json::{Fields, Number, Value};
use statechronicle::limits::MAX_INTENT_BYTES;
use statechronicle::ports::errors::{
    IntentStoreError, StateIndexError, TenantStoreError, TransactionManagerError, TrustGrantError,
};

// --- Values -----------------------------------------------------------------

fn s(text: &str) -> Value {
    Value::text(text)
}

fn object(members: &[(&str, Value)]) -> Value {
    Value::object(inputs(members))
}

fn inputs(entries: &[(&str, Value)]) -> Fields {
    let mut fields = Fields::new();
    for (name, value) in entries {
        fields.insert(String::from(*name), value.clone());
    }
    fields
}

fn at(text: &str) -> Timestamp {
    read_timestamp(text).unwrap().0
}

fn fixed_now() -> Timestamp {
    at("2026-07-14T00:00:00Z")
}

fn tenant() -> TenantId {
    TenantId(String::from("acme.game.alpha"))
}

fn executor_subject() -> SubjectId {
    SubjectId(String::from("service:statechronicle.example.net"))
}

/// A stand-in for a content hash: it tells different texts apart.
fn hash_bytes(bytes: &[u8]) -> ContentDigest {
    let mut digest = [0u8; 32];
    let mut state: u64 = 0xcbf2_9ce4_8422_2325;
    for byte in bytes {
        state = (state ^ u64::from(*byte)).wrapping_mul(0x0000_0100_0000_01b3);
    }
    for (i, slot) in digest.iter_mut().enumerate() {
        state = state.wrapping_mul(6_364_136_223_846_793_005).wrapping_add(i as u64);
        *slot = (state >> 33) as u8;
    }
    ContentDigest::new(digest)
}

fn state_digest(state: &ResourceState) -> ContentDigest {
    hash_bytes(format!("{:?}", state.payload).as_bytes())
}

fn canonical_bytes(intent: &Intent) -> Vec<u8> {
    format!("{:?}", intent).into_bytes()
}

/// A stand-in for the digest over a set of evaluations: one member is kept as
/// it is, and the order of several does not matter.
fn aggregate_digest(policy: AggregationPolicy, digests: &[ContentDigest]) -> ContentDigest {
    if digests.len() == 1 {
        return ContentDigest::new(digests[0].bytes);
    }
    let mut sorted: Vec<[u8; 32]> = digests.iter().map(|digest| digest.bytes).collect();
    sorted.sort();
    let mut bytes = vec![match policy {
        AggregationPolicy::RequireAll => 0u8,
        AggregationPolicy::AnyOf => 1u8,
    }];
    for member in sorted {
        bytes.extend_from_slice(&member);
    }
    hash_bytes(&bytes)
}

fn sample_authority() -> AuthorityProof {
    AuthorityProof {
        kind: String::from(TRUSTGRANT_EVALUATION_KIND),
        evaluation_digest: hash_bytes(b"evaluation"),
        result: EvaluationResult::Allow,
        evaluated_at: fixed_now(),
    }
}

// --- Requests ---------------------------------------------------------------

struct Request {
    intent: Intent,
    signature: Option<SignatureBlock>,
}

fn intent_in(
    scope: TenantId,
    intent_id: &str,
    operation: &str,
    state_type: Option<StateType>,
    expected_version: u64,
    resource: &str,
    actor: &str,
    entries: &[(&str, Value)],
    authority: Option<AuthorityProof>,
    expires_at: Option<Timestamp>,
) -> Request {
    Request {
        intent: Intent::new(
            scope,
            IntentId::new(format!("int_{}", intent_id)).unwrap(),
            Operation::new(String::from(operation)).unwrap(),
            SubjectId(String::from(actor)),
            ResourceId(String::from(resource)),
            state_type,
            expected_version,
            inputs(entries),
            authority,
            fixed_now(),
            expires_at,
            Nonce::from_bytes(vec![0]),
        ),
        signature: None,
    }
}

fn intent(
    intent_id: &str,
    operation: &str,
    state_type: Option<StateType>,
    expected_version: u64,
    resource: &str,
    actor: &str,
    entries: &[(&str, Value)],
    authority: Option<AuthorityProof>,
    expires_at: Option<Timestamp>,
) -> Request {
    intent_in(
        tenant(),
        intent_id,
        operation,
        state_type,
        expected_version,
        resource,
        actor,
        entries,
        authority,
        expires_at,
    )
}

fn cross_mint(scope: TenantId, intent_id: &str, resource: &str, owner: &str) -> Request {
    intent_in(
        scope,
        intent_id,
        "asset.mint",
        Some(StateType::UniqueAsset),
        0,
        resource,
        owner,
        &[("to_owner", s(owner))],
        None,
        None,
    )
}

fn mint(intent_id: &str, resource: &str, owner: &str) -> Request {
    cross_mint(tenant(), intent_id, resource, owner)
}

fn cross_asset_transfer(
    scope: TenantId,
    intent_id: &str,
    resource: &str,
    from: &str,
    to: &str,
    version: u64,
    authority: Option<AuthorityProof>,
) -> Request {
    intent_in(
        scope,
        intent_id,
        "asset.transfer",
        Some(StateType::UniqueAsset),
        version,
        resource,
        from,
        &[("from_owner", s(from)), ("to_owner", s(to))],
        authority,
        None,
    )
}

fn transfer(intent_id: &str, resource: &str, from: &str, to: &str, version: u64) -> Request {
    cross_asset_transfer(tenant(), intent_id, resource, from, to, version, None)
}

fn transfer_with_authority(
    intent_id: &str,
    resource: &str,
    from: &str,
    to: &str,
    version: u64,
) -> Request {
    let authority = Some(sample_authority());
    cross_asset_transfer(tenant(), intent_id, resource, from, to, version, authority)
}

fn lock(intent_id: &str, resource: &str, owner: &str, version: u64) -> Request {
    intent(
        intent_id,
        "asset.lock",
        Some(StateType::UniqueAsset),
        version,
        resource,
        owner,
        &[],
        None,
        None,
    )
}

fn cross_balance_create(
    scope: TenantId,
    intent_id: &str,
    resource: &str,
    holder: &str,
    balance: &str,
) -> Request {
    intent_in(
        scope,
        intent_id,
        "balance.create",
        Some(StateType::FungibleBalance),
        0,
        resource,
        holder,
        &[("subject", s(holder)), ("unit", s("gold_minor")), ("balance", s(balance))],
        None,
        None,
    )
}

fn balance_create(intent_id: &str, resource: &str, holder: &str, balance: &str) -> Request {
    cross_balance_create(tenant(), intent_id, resource, holder, balance)
}

fn cross_balance_transfer(
    scope: TenantId,
    intent_id: &str,
    resource: &str,
    from: &str,
    to: &str,
    version: u64,
    amount: &str,
) -> Request {
    intent_in(
        scope,
        intent_id,
        "balance.transfer",
        Some(StateType::FungibleBalance),
        version,
        resource,
        from,
        &[("to_subject", s(to)), ("amount", s(amount))],
        None,
        None,
    )
}

fn balance_transfer(
    intent_id: &str,
    resource: &str,
    from: &str,
    to: &str,
    version: u64,
    amount: &str,
) -> Request {
    cross_balance_transfer(tenant(), intent_id, resource, from, to, version, amount)
}

fn stack_create(intent_id: &str, resource: &str, holder: &str, quantity: &str) -> Request {
    intent(
        intent_id,
        "stack.create",
        Some(StateType::ConsumableStack),
        0,
        resource,
        holder,
        &[("subject", s(holder)), ("unit", s("arrows")), ("quantity", s(quantity))],
        None,
        None,
    )
}

fn stack_transfer(
    intent_id: &str,
    resource: &str,
    from: &str,
    to: &str,
    version: u64,
    quantity: &str,
) -> Request {
    intent(
        intent_id,
        "stack.transfer",
        Some(StateType::ConsumableStack),
        version,
        resource,
        from,
        &[("to_subject", s(to)), ("quantity", s(quantity))],
        None,
        None,
    )
}

// --- Outside services -------------------------------------------------------

#[derive(Clone)]
enum Mode {
    Allow,
    Deny,
    Stale,
    Unavailable,
    DenyTenant(String),
}

#[derive(Clone)]
struct Grant {
    mode: Mode,
    digest: ContentDigest,
    evaluated_at: Timestamp,
}

impl Grant {
    fn of(mode: Mode) -> Self {
        Grant { mode, digest: hash_bytes(b"allowed"), evaluated_at: fixed_now() }
    }

    fn allow() -> Self {
        Grant::of(Mode::Allow)
    }

    fn evaluate(&self, scope: &TenantId) -> Result<TrustGrantOutcome, TrustGrantError> {
        let allowed = Ok(TrustGrantOutcome {
            evaluation_digest: ContentDigest::new(self.digest.bytes),
            result: EvaluationResult::Allow,
            evaluated_at: self.evaluated_at,
        });
        match &self.mode {
            Mode::Allow => allowed,
            Mode::Deny => Err(TrustGrantError::Denied),
            Mode::Stale => Err(TrustGrantError::Stale),
            Mode::Unavailable => Err(TrustGrantError::Unavailable(String::from("grant down"))),
            Mode::DenyTenant(denied) => {
                if scope.0 == *denied {
                    Err(TrustGrantError::Denied)
                } else {
                    allowed
                }
            }
        }
    }

    fn freshness(&self) -> Result<(), TrustGrantError> {
        match &self.mode {
            Mode::Allow | Mode::DenyTenant(_) => Ok(()),
            Mode::Deny => Err(TrustGrantError::Denied),
            Mode::Stale => Err(TrustGrantError::Stale),
            Mode::Unavailable => Err(TrustGrantError::Unavailable(String::from("grant down"))),
        }
    }
}

fn allow_grant(fill: u8, evaluated_at: Timestamp) -> Grant {
    Grant { mode: Mode::Allow, digest: ContentDigest::new([fill; 32]), evaluated_at }
}

/// Which outside service fails.
#[derive(PartialEq)]
enum Outage {
    Nothing,
    Canonicalizer,
    IntentLookup,
    IntentClaim,
    TenantStore,
    StateIndex,
    Transactions,
}

type ProjectionKey = (String, String, Option<String>);

struct Harness {
    intents: HashMap<(String, String), Intent>,
    index: HashMap<ProjectionKey, StateProjection>,
    tenants: HashSet<String>,
    log: Vec<String>,
    next_event: u64,
    grants: Vec<Grant>,
    policy: AggregationPolicy,
    verifier: Option<VerifyingKey>,
    known_types: Vec<StateType>,
    outage: Outage,
}

fn member(projection: Option<&StateProjection>, name: &str) -> u128 {
    projection
        .and_then(|found| found.state.payload.text_member(name))
        .and_then(|text| text.parse::<u128>().ok())
        .unwrap_or(0)
}

impl Harness {
    fn with(grants: Vec<Grant>) -> Self {
        let mut tenants = HashSet::new();
        tenants.insert(String::from("acme.game.alpha"));
        tenants.insert(String::from("stexs.game.alpha"));
        Harness {
            intents: HashMap::new(),
            index: HashMap::new(),
            tenants,
            log: Vec::new(),
            next_event: 1,
            grants,
            policy: AggregationPolicy::RequireAll,
            verifier: None,
            known_types: vec![
                StateType::UniqueAsset,
                StateType::ConsumableStack,
                StateType::FungibleBalance,
                StateType::Entitlement,
                StateType::MeteredResource,
                StateType::Listing,
                StateType::Escrow,
            ],
            outage: Outage::Nothing,
        }
    }

    fn new() -> Self {
        Harness::with(vec![Grant::allow()])
    }

    fn apply(&mut self, event: &Event, state_type: StateType) {
        let subject = if state_type.is_subject_held() {
            event.after.state.payload.text_member("subject").map(String::from)
        } else {
            None
        };
        self.index.insert(
            (event.tenant_id.0.clone(), event.resource_id.0.clone(), subject),
            StateProjection {
                tenant_id: event.tenant_id.clone(),
                resource_id: event.resource_id.clone(),
                state_type,
                version: event.after.version,
                last_event_id: event.event_id.clone(),
                last_commit_id: CommitId::new(String::from("cmt_00000000000000000001")).unwrap(),
                state_hash: ContentDigest::new(event.after.state_hash.bytes),
                state: event.after.state.clone(),
            },
        );
    }

    fn load(
        &self,
        run: &Request,
        subject: Option<&SubjectId>,
    ) -> Result<Option<StateProjection>, StateIndexError> {
        if self.outage == Outage::StateIndex {
            return Err(StateIndexError::Unavailable(String::from("index down")));
        }
        let key = (
            run.intent.tenant_id.0.clone(),
            run.intent.resource_id.0.clone(),
            subject.map(|holder| holder.0.clone()),
        );
        Ok(self.index.get(&key).cloned())
    }

    /// The rules of the baseline profiles that the tests rely on.
    fn rules(
        &self,
        run: &Request,
        state_type: StateType,
        current: Option<&StateProjection>,
    ) -> Result<(), ProfileError> {
        let operation = run.intent.operation.as_str();
        let amount = |name: &str| {
            run.intent
                .inputs
                .get(name)
                .and_then(|value| value.as_str())
                .and_then(|text| text.parse::<u128>().ok())
        };
        let refuse = |message: String| Err(ProfileError { message });
        if state_type == StateType::FungibleBalance {
            if operation == "balance.mint" && run.intent.inputs.get("authorized_by").is_none() {
                return refuse(String::from("invalid input: authorized_by"));
            }
            if operation == "balance.debit" || operation == "balance.transfer" {
                let available = member(current, "balance");
                match amount("amount") {
                    Some(requested) if requested > available => {
                        return refuse(format!(
                            "insufficient quantity: available {}, requested {}",
                            available, requested
                        ));
                    }
                    Some(requested) if requested > 0 => {}
                    _ => return refuse(String::from("invalid input: amount")),
                }
            }
        }
        Ok(())
    }

    fn seal(&mut self, before: Option<ContentDigest>, after: ContentDigest) -> Seal {
        let event_id = EventId::new(format!("evt_{:020}", self.next_event)).unwrap();
        self.next_event += 1;
        Seal {
            before_hash: Ok(before.unwrap_or(ContentDigest::new([0; 32]))),
            after_hash: Ok(after),
            event_id,
            created_at: fixed_now(),
        }
    }

    fn run(
        &mut self,
        request: &Request,
        allow_value_legs: bool,
        persist_intent: bool,
    ) -> Result<Vec<Event>, ExecutorError> {
        let executor = executor_subject();
        let intent = &request.intent;
        let bytes = canonical_bytes(intent);
        let mut step = begin(Run {
            intent,
            signature: request.signature.as_ref(),
            allow_value_legs,
            persist_intent,
            authorities: self.grants.len(),
            executor: &executor,
        });
        let stored = (intent.tenant_id.0.clone(), intent.intent_id.0.clone());
        loop {
            step = match step {
                Step::Canonicalize(wait) => {
                    if self.outage == Outage::Canonicalizer {
                        wait.resume(
                            Err(StateChronicleError::Canonicalization(String::from("float"))),
                            fixed_now(),
                        )
                    } else {
                        wait.resume(Ok(bytes.len()), fixed_now())
                    }
                }
                Step::LookUpIntent(wait) => {
                    if self.outage == Outage::IntentLookup {
                        wait.resume(Err(IntentStoreError::Unavailable(String::from("store down"))))
                    } else {
                        wait.resume(Ok(self.intents.get(&stored).cloned()))
                    }
                }
                Step::VerifySignature(wait) => {
                    let block = request.signature.as_ref().unwrap();
                    let verdict = match &self.verifier {
                        None => Ok(()),
                        Some(key) => {
                            let signature = ed25519_dalek::Signature::from_bytes(&block.sig.bytes);
                            key.verify(&bytes, &signature).map_err(|error| {
                                ExecutorError::ActorAuthenticationFailed(error.to_string())
                            })
                        }
                    };
                    wait.resume(verdict)
                }
                Step::CheckFreshness(wait) => wait.resume(self.grants[0].freshness()),
                Step::FindTenant(wait) => {
                    if self.outage == Outage::TenantStore {
                        wait.resume(Err(TenantStoreError::Unavailable(String::from("down"))))
                    } else {
                        wait.resume(Ok(self.tenants.contains(&intent.tenant_id.0)))
                    }
                }
                Step::LoadState(wait) => {
                    let loaded = self.load(request, wait.subject());
                    wait.resume(loaded)
                }
                Step::ReloadState(wait) => {
                    let loaded = self.load(request, Some(wait.subject()));
                    wait.resume(loaded)
                }
                Step::ResolveRules(wait) => {
                    let known = self.known_types.contains(&wait.rules_for());
                    let requires_authority = intent.operation.as_str() == "asset.transfer";
                    wait.resume(if known {
                        Some(RuleFacts { requires_authority, policy: self.policy })
                    } else {
                        None
                    })
                }
                Step::Evaluate(wait) => {
                    let reply = self.grants[wait.index()].evaluate(&intent.tenant_id);
                    wait.resume(reply)
                }
                Step::Aggregate(wait) => {
                    let digest = aggregate_digest(wait.aggregation(), &wait.digests());
                    wait.resume(digest)
                }
                Step::CheckBinding(wait) => {
                    assert_eq!(wait.bound().kind, TRUSTGRANT_EVALUATION_KIND);
                    wait.resume(self.grants[0].freshness())
                }
                Step::CheckRules(wait) => {
                    let verdict = self.rules(request, wait.rules_for(), wait.projection());
                    wait.resume(verdict)
                }
                Step::SealEvent(wait) => {
                    let before = wait.new_before().map(state_digest);
                    let after = state_digest(wait.after_to_digest());
                    wait.resume(self.seal(before, after))
                }
                Step::LoadDestination(wait) => {
                    let loaded = self.load(request, Some(wait.subject()));
                    wait.resume(loaded)
                }
                Step::SealDestination(wait) => {
                    let before = wait.new_before().map(state_digest);
                    let after = state_digest(wait.after_to_digest());
                    wait.resume(self.seal(before, after))
                }
                Step::ClaimIntent(wait) => {
                    if self.outage == Outage::IntentClaim {
                        wait.resume(Err(IntentStoreError::Duplicate))
                    } else {
                        self.intents.insert(stored.clone(), intent.clone());
                        wait.resume(Ok(()))
                    }
                }
                Step::Done(result) => return result,
            };
        }
    }

    fn execute(&mut self, request: &Request) -> Result<Vec<Event>, ExecutorError> {
        self.run(request, false, true)
    }

    /// Runs a batch; a durable one through a sink that answers as given.
    fn run_batch(
        &mut self,
        kind: BatchKind,
        sink: Option<Result<(), String>>,
        requests: &[Request],
    ) -> Result<Vec<TenantEventGroup>, ExecutorError> {
        let items = requests
            .iter()
            .map(|request| BatchItem {
                tenant: request.intent.tenant_id.clone(),
                intent_id: request.intent.intent_id.clone(),
            })
            .collect();
        let mut step = begin_batch(kind, sink.is_some(), items);
        loop {
            step = match step {
                BatchStep::Begin(wait) => {
                    let names: Vec<String> =
                        wait.scope().into_iter().map(|scope| scope.0).collect();
                    let joined = names.join(",");
                    if wait.spanning() {
                        self.log.push(format!("begin_multi:{}", joined));
                    } else {
                        self.log.push(format!("begin:{}", joined));
                    }
                    if self.outage == Outage::Transactions {
                        wait.resume(Err(TransactionManagerError::Unavailable(String::from("x"))))
                    } else {
                        wait.resume(Ok(()))
                    }
                }
                BatchStep::RunIntent(wait) => {
                    let produced = self.run(
                        &requests[wait.index()],
                        wait.allow_value_legs(),
                        wait.persist_intent(),
                    );
                    wait.resume(produced)
                }
                BatchStep::CheckSettlement(wait) => {
                    let settled = wait
                        .events()
                        .iter()
                        .flat_map(|group| group.events.iter())
                        .any(|event| event.operation.as_str() == "balance.transfer");
                    wait.resume(if settled {
                        Ok(())
                    } else {
                        Err(ExecutorError::AtomicityViolation(String::from("no value leg")))
                    })
                }
                BatchStep::Persist(wait) => {
                    let count: usize =
                        wait.events().iter().map(|group| group.events.len()).sum();
                    self.log.push(format!("persist:{}", count));
                    wait.resume(sink.clone().unwrap())
                }
                BatchStep::Commit(wait) => {
                    self.log.push(String::from("commit"));
                    wait.resume(Ok(()))
                }
                BatchStep::Rollback(wait) => {
                    self.log.push(String::from("rollback"));
                    wait.resume(Ok(()))
                }
                BatchStep::Done(result) => return result,
            };
        }
    }

    fn execute_batch(&mut self, requests: &[Request]) -> Result<Vec<Event>, ExecutorError> {
        let groups = self.run_batch(BatchKind::Batch, None, requests)?;
        Ok(groups.into_iter().flat_map(|group| group.events).collect())
    }

    fn execute_cross_tenant(
        &mut self,
        requests: &[Request],
    ) -> Result<Vec<TenantEventGroup>, ExecutorError> {
        self.run_batch(BatchKind::CrossTenant, None, requests)
    }

    fn minted(&mut self, resource: &str) {
        let events = self.execute(&mint("mint_001", resource, "alice")).unwrap();
        self.apply(&events[0], StateType::UniqueAsset);
    }

    fn funded(&mut self, balance: &str) {
        let events = self
            .execute(&balance_create("create_001", "currency:gold", "alice", balance))
            .unwrap();
        self.apply(&events[0], StateType::FungibleBalance);
    }
}

fn payload_member<'a>(state: &'a ResourceState, name: &str) -> &'a str {
    state.payload.text_member(name).unwrap()
}

// --- One intent -------------------------------------------------------------

#[test]
fn mint_transfer_lock_lifecycle_produces_correct_events() {
    let mut harness = Harness::new();

    let minted = harness.execute(&mint("mint_001", "asset:sword_001", "alice")).unwrap();
    assert_eq!(minted.len(), 1);
    let mint_event = &minted[0];
    assert_eq!(mint_event.before.version, 0);
    assert_eq!(mint_event.before.state.payload, object(&[]));
    assert_eq!(mint_event.after.version, 1);
    assert_eq!(
        mint_event.after.state.payload,
        object(&[("owner", s("alice")), ("status", s("active"))])
    );
    assert_eq!(mint_event.after.state_hash, state_digest(&mint_event.after.state));
    assert_eq!(mint_event.actor, SubjectId(String::from("alice")));
    assert_eq!(mint_event.executor, executor_subject());
    assert_eq!(mint_event.tenant_id, tenant());
    assert_eq!(mint_event.intent_id.as_str(), "int_mint_001");
    assert_eq!(mint_event.operation.as_str(), "asset.mint");
    assert!(mint_event.authority.is_none());
    harness.apply(mint_event, StateType::UniqueAsset);

    let transferred = harness
        .execute(&transfer_with_authority("transfer_001", "asset:sword_001", "alice", "bob", 1))
        .unwrap();
    assert_eq!(transferred.len(), 1);
    let transfer_event = &transferred[0];
    assert_eq!(transfer_event.before.version, 1);
    assert_eq!(transfer_event.after.version, 2);
    assert_eq!(
        transfer_event.before.state.payload,
        object(&[("owner", s("alice")), ("status", s("active"))])
    );
    assert_eq!(
        transfer_event.after.state.payload,
        object(&[("owner", s("bob")), ("status", s("active"))])
    );
    assert_eq!(transfer_event.after.state_hash, state_digest(&transfer_event.after.state));
    assert!(transfer_event.authority.is_some(), "transfer binds authority");
    harness.apply(transfer_event, StateType::UniqueAsset);

    let locked = harness.execute(&lock("lock_001", "asset:sword_001", "bob", 2)).unwrap();
    assert_eq!(locked.len(), 1);
    let lock_event = &locked[0];
    assert_eq!(lock_event.before.version, 2);
    assert_eq!(lock_event.after.version, 3);
    assert_eq!(
        lock_event.after.state.payload,
        object(&[("owner", s("bob")), ("status", s("locked"))])
    );
}

#[test]
fn idempotent_replay_returns_empty() {
    let mut harness = Harness::new();
    let request = mint("mint_001", "asset:sword_001", "alice");
    let first = harness.execute(&request).unwrap();
    assert_eq!(first.len(), 1);
    let replay = harness.execute(&request).unwrap();
    assert!(replay.is_empty());
}

#[test]
fn duplicate_intent_id_with_different_payload_fails_closed() {
    let mut harness = Harness::new();
    let first = mint("dup_001", "asset:sword_001", "alice");
    let mut conflict = mint("dup_001", "asset:sword_001", "alice");
    conflict.intent.inputs = inputs(&[("to_owner", s("mallory"))]);

    assert_eq!(harness.execute(&first).unwrap().len(), 1);
    let error = harness.execute(&conflict).unwrap_err();
    assert!(matches!(
        error,
        ExecutorError::DuplicateIntent { intent_id } if intent_id == "int_dup_001"
    ));
}

#[test]
fn wrong_expected_version_fails_closed() {
    let mut harness = Harness::new();
    harness.minted("asset:sword_001");
    let error = harness
        .execute(&transfer_with_authority("transfer_001", "asset:sword_001", "alice", "bob", 99))
        .unwrap_err();
    assert!(matches!(
        error,
        ExecutorError::ExpectedVersionMismatch { resource, expected, actual }
        if resource == "asset:sword_001" && expected == 99 && actual == 1
    ));
}

#[test]
fn unknown_tenant_fails_closed() {
    let mut harness = Harness::new();
    harness.tenants.clear();
    let error = harness.execute(&mint("mint_001", "asset:sword_001", "alice")).unwrap_err();
    assert!(matches!(
        error,
        ExecutorError::TenantNotFound { tenant } if tenant == "acme.game.alpha"
    ));
}

fn mint_with(authority: Option<AuthorityProof>, expires_at: Option<Timestamp>) -> Request {
    intent(
        "mint_001",
        "asset.mint",
        Some(StateType::UniqueAsset),
        0,
        "asset:sword_001",
        "alice",
        &[("to_owner", s("alice"))],
        authority,
        expires_at,
    )
}

#[test]
fn authority_deny_fails_closed() {
    let mut harness = Harness::with(vec![Grant::of(Mode::Deny)]);
    let error = harness.execute(&mint_with(Some(sample_authority()), None)).unwrap_err();
    assert!(matches!(error, ExecutorError::AuthorityDenied));
}

#[test]
fn authority_stale_fails_closed() {
    let mut harness = Harness::with(vec![Grant::of(Mode::Stale)]);
    let error = harness.execute(&mint_with(Some(sample_authority()), None)).unwrap_err();
    assert!(matches!(error, ExecutorError::AuthorityStale));
}

#[test]
fn authority_binds_into_event_when_evaluated() {
    let mut harness = Harness::new();
    let events = harness.execute(&mint_with(Some(sample_authority()), None)).unwrap();
    let authority = events[0].authority.as_ref().expect("authority bound");
    assert_eq!(authority.kind, "trustgrant.evaluation");
    assert_eq!(authority.result, EvaluationResult::Allow);
}

#[test]
fn expired_intent_fails_closed() {
    let mut harness = Harness::new();
    let request = mint_with(None, Some(at("2026-07-13T23:59:59Z")));
    let error = harness.execute(&request).unwrap_err();
    assert!(matches!(
        error,
        ExecutorError::Expired { intent_id } if intent_id == "int_mint_001"
    ));
}

#[test]
fn resource_locked_fails_closed() {
    let mut harness = Harness::new();
    harness.minted("asset:sword_001");
    let locked = harness.execute(&lock("lock_001", "asset:sword_001", "alice", 1)).unwrap();
    harness.apply(&locked[0], StateType::UniqueAsset);
    let error = harness
        .execute(&transfer_with_authority("transfer_001", "asset:sword_001", "alice", "bob", 2))
        .unwrap_err();
    assert!(matches!(
        error,
        ExecutorError::ResourceLocked { resource } if resource == "asset:sword_001"
    ));
}

#[test]
fn insufficient_quantity_fails_closed_via_profiles() {
    let mut harness = Harness::new();
    harness.funded("10");
    let debit = intent(
        "debit_001",
        "balance.debit",
        Some(StateType::FungibleBalance),
        1,
        "currency:gold",
        "alice",
        &[("amount", s("11"))],
        None,
        None,
    );
    let error = harness.execute(&debit).unwrap_err();
    assert!(matches!(
        error,
        ExecutorError::Profile(ProfileError { message })
        if message == "insufficient quantity: available 10, requested 11"
    ));
}

#[test]
fn missing_state_type_fails_closed() {
    let mut harness = Harness::new();
    let request = intent(
        "mint_001",
        "asset.mint",
        None,
        0,
        "asset:sword_001",
        "alice",
        &[("to_owner", s("alice"))],
        None,
        None,
    );
    let error = harness.execute(&request).unwrap_err();
    assert!(matches!(error, ExecutorError::StateTypeRequired));
}

#[test]
fn balance_transfer_emits_atomic_debit_credit_pair() {
    let mut harness = Harness::new();
    harness.funded("100");
    let events = harness
        .execute(&balance_transfer("transfer_001", "currency:gold", "alice", "bob", 1, "40"))
        .unwrap();

    assert_eq!(events.len(), 2, "transfer emits exactly two events");
    assert_eq!(events[0].intent_id, events[1].intent_id);
    assert_ne!(events[0].event_id, events[1].event_id);
    assert_eq!(events[0].operation.as_str(), "balance.transfer");
    assert_eq!(events[1].operation.as_str(), "balance.transfer");
    assert_eq!(events[0].resource_id, events[1].resource_id);

    assert_eq!(payload_member(&events[0].after.state, "balance"), "60");
    assert_eq!(payload_member(&events[0].after.state, "subject"), "alice");

    assert_eq!(events[1].before.version, 0);
    assert_eq!(events[1].before.state.payload, object(&[]));
    assert_eq!(events[1].after.version, 1);
    assert_eq!(payload_member(&events[1].after.state, "balance"), "40");
    assert_eq!(payload_member(&events[1].after.state, "subject"), "bob");

    assert!(validate_batch_consistency(&events).is_ok());

    harness.apply(&events[0], StateType::FungibleBalance);
    harness.apply(&events[1], StateType::FungibleBalance);
    let key = (
        String::from("acme.game.alpha"),
        String::from("currency:gold"),
        Some(String::from("bob")),
    );
    let bob = harness.index.get(&key).expect("bob's balance persisted");
    assert_eq!(payload_member(&bob.state, "balance"), "40");
}

#[test]
fn stack_transfer_emits_atomic_debit_credit_pair() {
    let mut harness = Harness::new();
    let created =
        harness.execute(&stack_create("create_001", "stack:arrows", "alice", "10")).unwrap();
    harness.apply(&created[0], StateType::ConsumableStack);
    let events = harness
        .execute(&stack_transfer("transfer_001", "stack:arrows", "alice", "bob", 1, "4"))
        .unwrap();

    assert_eq!(events.len(), 2);
    assert_eq!(events[0].intent_id, events[1].intent_id);
    assert_eq!(payload_member(&events[0].after.state, "quantity"), "6");
    assert_eq!(payload_member(&events[0].after.state, "subject"), "alice");
    assert_eq!(events[1].before.version, 0);
    assert_eq!(payload_member(&events[1].after.state, "quantity"), "4");
    assert_eq!(payload_member(&events[1].after.state, "subject"), "bob");
    assert!(validate_batch_consistency(&events).is_ok());
}

#[test]
fn transfer_to_nonexistent_destination_creates_it_at_version_zero() {
    let mut harness = Harness::new();
    harness.funded("100");
    let events = harness
        .execute(&balance_transfer("transfer_001", "currency:gold", "alice", "carol", 1, "25"))
        .unwrap();
    assert_eq!(events.len(), 2);
    assert_eq!(events[1].before.version, 0);
    assert_eq!(events[1].after.version, 1);
    assert_eq!(payload_member(&events[1].after.state, "balance"), "25");
    assert_eq!(payload_member(&events[1].after.state, "subject"), "carol");
}

fn fixed_key() -> SigningKey {
    SigningKey::from_bytes(&[42u8; 32])
}

fn with_signature(mut request: Request, key: &SigningKey) -> Request {
    let sig = key.sign(&canonical_bytes(&request.intent));
    request.signature = Some(SignatureBlock {
        alg: SignatureAlg::Ed25519,
        key_id: KeyId::new(String::from("did:key:z6Mk...#key-1")).unwrap(),
        sig: Signature { bytes: sig.to_bytes() },
    });
    request
}

#[test]
fn valid_signature_passes_actor_authentication() {
    let key = fixed_key();
    let mut harness = Harness::new();
    harness.verifier = Some(key.verifying_key());
    let request = with_signature(mint("mint_001", "asset:sword_001", "alice"), &key);
    let events = harness.execute(&request).unwrap();
    assert_eq!(events.len(), 1);
    assert_eq!(events[0].intent_id.as_str(), "int_mint_001");
}

#[test]
fn tampered_signature_fails_actor_authentication() {
    let mut harness = Harness::new();
    harness.verifier = Some(fixed_key().verifying_key());
    let wrong_key = SigningKey::from_bytes(&[7u8; 32]);
    let request = with_signature(mint("mint_001", "asset:sword_001", "alice"), &wrong_key);
    let error = harness.execute(&request).unwrap_err();
    assert!(matches!(error, ExecutorError::ActorAuthenticationFailed(_)));
}

#[test]
fn absent_signature_on_authority_requiring_op_is_denied_per_profile() {
    let mut harness = Harness::new();
    harness.funded("100");
    let request = intent(
        "mint_001",
        "balance.mint",
        Some(StateType::FungibleBalance),
        1,
        "currency:gold",
        "alice",
        &[("amount", s("10"))],
        None,
        None,
    );
    let error = harness.execute(&request).unwrap_err();
    assert!(matches!(
        error,
        ExecutorError::Profile(ProfileError { message }) if message.starts_with("invalid input")
    ));
}

#[test]
fn transfer_destination_keys_by_holder_via_state_key() {
    let mut harness = Harness::new();
    harness.funded("100");
    let events = harness
        .execute(&balance_transfer("transfer_001", "currency:gold", "alice", "bob", 1, "40"))
        .unwrap();
    harness.apply(&events[1], StateType::FungibleBalance);

    let key_of = |holder: &str| {
        state_key_for(
            StateType::FungibleBalance,
            &tenant(),
            Some(&SubjectId(String::from(holder))),
            &ResourceId(String::from("currency:gold")),
        )
        .unwrap()
    };
    let holder_key = key_of("bob");
    assert_eq!(
        holder_key,
        StateKey::for_subject_held("acme.game.alpha", "currency:gold", "bob")
    );
    assert_ne!(holder_key, key_of("alice"));
}

// --- Authority --------------------------------------------------------------

#[test]
fn authority_required_op_without_binding_fails_closed() {
    let mut harness = Harness::new();
    harness.minted("asset:sword_001");
    let error = harness
        .execute(&transfer("transfer_001", "asset:sword_001", "alice", "bob", 1))
        .unwrap_err();
    assert!(matches!(
        error,
        ExecutorError::AuthorityMissing { operation } if operation == "asset.transfer"
    ));
}

#[test]
fn authority_required_op_with_binding_succeeds() {
    let mut harness = Harness::new();
    harness.minted("asset:sword_001");
    let events = harness
        .execute(&transfer_with_authority("transfer_001", "asset:sword_001", "alice", "bob", 1))
        .unwrap();
    let authority = events[0].authority.as_ref().expect("authority bound");
    assert_eq!(authority.kind, "trustgrant.evaluation");
    assert_eq!(authority.result, EvaluationResult::Allow);
}

#[test]
fn missing_authority_surfaces_after_conflict_gates() {
    let mut harness = Harness::new();
    harness.minted("asset:sword_001");
    let locked = harness.execute(&lock("lock_001", "asset:sword_001", "alice", 1)).unwrap();
    harness.apply(&locked[0], StateType::UniqueAsset);
    let error = harness
        .execute(&transfer("transfer_001", "asset:sword_001", "alice", "bob", 2))
        .unwrap_err();
    assert!(matches!(
        error,
        ExecutorError::ResourceLocked { resource } if resource == "asset:sword_001"
    ));
}

/// The authority that a transfer binds under the given grants.
fn bound_authority(grants: Vec<Grant>, policy: AggregationPolicy) -> Result<AuthorityProof, ExecutorError> {
    let mut harness = Harness::with(grants);
    harness.policy = policy;
    harness.minted("asset:sword_001");
    let request = transfer_with_authority("transfer_001", "asset:sword_001", "alice", "bob", 1);
    let events = harness.execute(&request)?;
    Ok(events[0].authority.clone().expect("authority bound"))
}

#[test]
fn multi_authority_all_allow_binds_aggregate() {
    let grants = vec![allow_grant(1, fixed_now()), allow_grant(2, fixed_now())];
    let authority = bound_authority(grants, AggregationPolicy::RequireAll).unwrap();
    let expected = aggregate_digest(
        AggregationPolicy::RequireAll,
        &[ContentDigest::new([1; 32]), ContentDigest::new([2; 32])],
    );
    assert_eq!(authority.evaluation_digest, expected, "aggregate digest bound");
    assert_eq!(authority.result, EvaluationResult::Allow);
}

#[test]
fn aggregate_binds_oldest_evaluated_at() {
    let newer = fixed_now();
    let older = at("2026-07-13T00:00:00Z");
    for grants in [
        vec![allow_grant(1, older), allow_grant(2, newer)],
        vec![allow_grant(1, newer), allow_grant(2, older)],
    ] {
        let authority = bound_authority(grants, AggregationPolicy::RequireAll).unwrap();
        assert_eq!(authority.result, EvaluationResult::Allow);
        assert_eq!(authority.evaluated_at, older, "the oldest evaluation is bound");
    }
}

#[test]
fn multi_authority_one_deny_fails_closed() {
    let grants = vec![Grant::allow(), Grant::of(Mode::Deny)];
    let error = bound_authority(grants, AggregationPolicy::RequireAll).unwrap_err();
    assert!(matches!(error, ExecutorError::AuthorityDenied));
}

#[test]
fn multi_authority_any_of_passes() {
    let grants = vec![Grant::allow(), Grant::of(Mode::Deny)];
    let authority = bound_authority(grants, AggregationPolicy::AnyOf).unwrap();
    assert_eq!(authority.result, EvaluationResult::Allow);
}

#[test]
fn stale_sub_evaluation_fails_closed() {
    let grants = vec![Grant::allow(), Grant::of(Mode::Stale)];
    let error = bound_authority(grants, AggregationPolicy::RequireAll).unwrap_err();
    assert!(matches!(error, ExecutorError::AuthorityStale));
}

#[test]
fn single_evaluator_binds_sub_digest_identity() {
    let grants = vec![allow_grant(9, fixed_now())];
    let authority = bound_authority(grants, AggregationPolicy::RequireAll).unwrap();
    assert_eq!(authority.evaluation_digest, ContentDigest::new([9; 32]));
}

#[test]
fn aggregate_digest_independent_of_evaluator_order() {
    let one = allow_grant(1, fixed_now());
    let two = allow_grant(2, fixed_now());
    let forward =
        bound_authority(vec![one.clone(), two.clone()], AggregationPolicy::RequireAll).unwrap();
    let reverse = bound_authority(vec![two, one], AggregationPolicy::RequireAll).unwrap();
    assert_eq!(
        forward.evaluation_digest, reverse.evaluation_digest,
        "aggregate digest is order-independent"
    );
}

#[test]
fn unavailability_masks_staleness_and_denial() {
    let all = vec![
        Grant::allow(),
        Grant::of(Mode::Deny),
        Grant::of(Mode::Unavailable),
        Grant::of(Mode::Stale),
    ];
    match bound_authority(all, AggregationPolicy::RequireAll).unwrap_err() {
        ExecutorError::AuthorityUnavailable(detail) => assert_eq!(detail, "grant down"),
        _ => panic!("expected unavailability"),
    }
    let both = vec![Grant::allow(), Grant::of(Mode::Deny), Grant::of(Mode::Stale)];
    assert!(matches!(
        bound_authority(both, AggregationPolicy::RequireAll),
        Err(ExecutorError::AuthorityStale)
    ));
}

#[test]
fn a_bound_intent_needs_a_configured_authority() {
    let mut harness = Harness::with(Vec::new());
    match harness.execute(&mint_with(Some(sample_authority()), None)).unwrap_err() {
        ExecutorError::AuthorityUnavailable(detail) => {
            assert_eq!(detail, "no authority configured");
        }
        _ => panic!("expected unavailability"),
    }
    assert_eq!(harness.execute(&mint_with(None, None)).unwrap().len(), 1);
}

// --- Failures of the outside ------------------------------------------------

#[test]
fn outages_fail_closed() {
    for (outage, text) in [
        (Outage::IntentLookup, "store down"),
        (Outage::TenantStore, "down"),
        (Outage::StateIndex, "index down"),
    ] {
        let mut harness = Harness::new();
        harness.outage = outage;
        match harness.execute(&mint("mint_001", "asset:sword_001", "alice")).unwrap_err() {
            ExecutorError::Store(detail) => assert!(detail.ends_with(text), "{}", detail),
            error => panic!("unexpected {:?}", error),
        }
        assert!(harness.intents.is_empty());
    }
    let mut harness = Harness::new();
    harness.outage = Outage::Canonicalizer;
    let error = harness.execute(&mint("mint_001", "asset:sword_001", "alice")).unwrap_err();
    assert!(error.message().contains("float"));

    let mut harness = Harness::new();
    harness.outage = Outage::IntentClaim;
    let error = harness.execute(&mint("mint_001", "asset:sword_001", "alice")).unwrap_err();
    assert!(matches!(
        error,
        ExecutorError::DuplicateIntent { intent_id } if intent_id == "int_mint_001"
    ));
}

#[test]
fn an_oversized_intent_fails_closed() {
    let mut harness = Harness::new();
    let request = intent(
        "mint_001",
        "asset.mint",
        Some(StateType::UniqueAsset),
        0,
        "asset:sword_001",
        "alice",
        &[("to_owner", s(&"x".repeat(MAX_INTENT_BYTES)))],
        None,
        None,
    );
    assert!(matches!(
        harness.execute(&request),
        Err(ExecutorError::SizeLimitExceeded { name, limit, actual })
        if name == "intent" && limit == MAX_INTENT_BYTES && actual > MAX_INTENT_BYTES
    ));
}

#[test]
fn a_state_type_without_rules_fails_closed() {
    let mut harness = Harness::new();
    harness.known_types.clear();
    match harness.execute(&mint("mint_001", "asset:sword_001", "alice")).unwrap_err() {
        ExecutorError::TransitionInvalid(detail) => assert_eq!(detail, "unknown state type"),
        error => panic!("unexpected {:?}", error),
    }
}

#[test]
fn a_failed_execution_claims_nothing() {
    let mut harness = Harness::new();
    harness.funded("10");
    let claims = harness.intents.len();
    let request = balance_transfer("transfer_001", "currency:gold", "alice", "bob", 1, "11");
    assert!(harness.execute(&request).is_err());
    assert_eq!(harness.intents.len(), claims);
}

// --- Batches ----------------------------------------------------------------

#[test]
fn execute_batch_commits_all_atomically() {
    let mut harness = Harness::new();
    let requests = vec![
        mint("mint_001", "asset:sword_001", "alice"),
        mint("mint_002", "asset:shield_002", "bob"),
    ];
    let events = harness.execute_batch(&requests).unwrap();
    assert_eq!(events.len(), 2);
    assert!(validate_batch_consistency(&events).is_ok());
    assert_eq!(harness.log, vec!["begin:acme.game.alpha", "commit"]);
}

#[test]
fn execute_batch_rolls_back_on_failure() {
    let mut harness = Harness::new();
    harness.minted("asset:sword_001");
    let requests = vec![
        transfer_with_authority("transfer_001", "asset:sword_001", "alice", "bob", 1),
        transfer_with_authority("transfer_002", "asset:sword_001", "alice", "eve", 99),
    ];
    let error = harness.execute_batch(&requests).unwrap_err();
    assert!(matches!(error, ExecutorError::AtomicityViolation(_)));
    assert_eq!(harness.log, vec!["begin:acme.game.alpha", "rollback"]);
}

#[test]
fn empty_batches_are_refused() {
    for (kind, text) in [
        (BatchKind::Batch, "empty batch"),
        (BatchKind::Settle, "empty settle batch"),
        (
            BatchKind::CrossTenant,
            "cross-tenant batch requires at least two distinct tenants",
        ),
        (
            BatchKind::CrossTenantTrade,
            "cross-tenant trade requires at least two distinct tenants",
        ),
    ] {
        let mut harness = Harness::new();
        match harness.run_batch(kind, None, &[]) {
            Err(ExecutorError::AtomicityViolation(detail)) => assert_eq!(detail, text),
            _ => panic!("expected a refusal"),
        }
        assert!(harness.log.is_empty());
    }
}

#[test]
fn a_plain_batch_takes_no_replay() {
    let mut harness = Harness::new();
    let request = mint("mint_001", "asset:sword_001", "alice");
    harness.execute(&request).unwrap();
    let error = harness
        .execute_batch(&[request, mint("mint_002", "asset:shield_002", "bob")])
        .unwrap_err();
    assert!(error.message().contains("partial replay detected in batch"));
    assert!(error.message().contains("int_mint_001"));
    assert_eq!(harness.log, vec!["begin:acme.game.alpha", "rollback"]);
}

#[test]
fn a_transaction_that_does_not_begin_runs_nothing() {
    let mut harness = Harness::new();
    harness.outage = Outage::Transactions;
    let error = harness
        .execute_batch(&[mint("mint_001", "asset:sword_001", "alice")])
        .unwrap_err();
    assert!(matches!(error, ExecutorError::Store(_)));
    assert_eq!(harness.log, vec!["begin:acme.game.alpha"]);
    assert_eq!(harness.next_event, 1);
}

#[test]
fn a_durable_batch_claims_and_persists() {
    let mut harness = Harness::new();
    let requests = vec![
        mint("mint_001", "asset:sword_001", "alice"),
        mint("mint_002", "asset:shield_002", "bob"),
    ];
    let groups = harness.run_batch(BatchKind::Batch, Some(Ok(())), &requests).unwrap();
    assert_eq!(groups.len(), 1);
    assert_eq!(groups[0].events.len(), 2);
    assert_eq!(harness.log, vec!["persist:2"]);
    assert_eq!(harness.intents.len(), 2);

    let mut refused = Harness::new();
    let result =
        refused.run_batch(BatchKind::Batch, Some(Err(String::from("disk full"))), &requests);
    match result {
        Err(ExecutorError::Store(detail)) => assert_eq!(detail, "disk full"),
        _ => panic!("expected the sink's error"),
    }
}

#[test]
fn a_value_leg_is_settled_on_the_settlement_route_alone() {
    let settle = |intent_id: &str| {
        intent(
            intent_id,
            "trade.settle",
            Some(StateType::UniqueAsset),
            1,
            "asset:sword_001",
            "alice",
            &[
                ("trade_id", s("trade_1")),
                ("from_owner", s("alice")),
                ("to_owner", s("bob")),
                ("value_resource", s("currency:gold")),
                ("value_amount", s("5")),
                ("value_to_subject", s("alice")),
            ],
            None,
            None,
        )
    };
    let mut harness = Harness::new();
    harness.minted("asset:sword_001");
    let error = harness.execute(&settle("settle_001")).unwrap_err();
    assert!(matches!(
        error,
        ExecutorError::ValueLegSettleRouting { intent_id } if intent_id == "int_settle_001"
    ));
    let error = harness.execute_batch(&[settle("settle_001")]).unwrap_err();
    assert!(matches!(error, ExecutorError::AtomicityViolation(_)));

    // The settlement's own check decides on its route.
    let result = harness.run_batch(BatchKind::Settle, None, &[settle("settle_001")]);
    match result {
        Err(ExecutorError::AtomicityViolation(detail)) => {
            assert!(detail.ends_with("no value leg"), "{}", detail);
        }
        _ => panic!("expected a refusal"),
    }
}

fn alpha() -> TenantId {
    TenantId(String::from("stexs.game.alpha"))
}

fn beta() -> TenantId {
    TenantId(String::from("stexs.game.beta"))
}

/// A harness with a balance of 100 in each of two tenants.
fn two_tenants() -> Harness {
    let mut harness = Harness::new();
    harness.tenants.insert(beta().0);
    let a = harness
        .execute(&cross_balance_create(alpha(), "create_a", "currency:gold", "alice", "100"))
        .unwrap();
    harness.apply(&a[0], StateType::FungibleBalance);
    let b = harness
        .execute(&cross_balance_create(beta(), "create_b", "currency:gold", "carol", "100"))
        .unwrap();
    harness.apply(&b[0], StateType::FungibleBalance);
    harness
}

fn two_transfers(intent_id: &str, beta_version: u64, amount: &str) -> Vec<Request> {
    vec![
        cross_balance_transfer(alpha(), intent_id, "currency:gold", "alice", "bob", 1, amount),
        cross_balance_transfer(
            beta(),
            intent_id,
            "currency:gold",
            "carol",
            "dave",
            beta_version,
            amount,
        ),
    ]
}

#[test]
fn cross_tenant_debit_credit_commits_per_tenant() {
    let mut harness = two_tenants();
    let groups = harness.execute_cross_tenant(&two_transfers("xt_001", 1, "40")).unwrap();
    assert_eq!(groups.len(), 2);
    assert_eq!(groups[0].tenant, alpha());
    assert_eq!(groups[0].events.len(), 2);
    assert_eq!(groups[1].tenant, beta());
    assert_eq!(groups[1].events.len(), 2);
    assert_eq!(
        harness.log,
        vec!["begin_multi:stexs.game.alpha,stexs.game.beta", "commit"]
    );
}

#[test]
fn cross_tenant_mid_batch_failure_rolls_back() {
    let mut harness = two_tenants();
    let error = harness.execute_cross_tenant(&two_transfers("xt_002", 99, "40")).unwrap_err();
    assert!(matches!(error, ExecutorError::AtomicityViolation(_)));
    assert_eq!(
        harness.log,
        vec!["begin_multi:stexs.game.alpha,stexs.game.beta", "rollback"]
    );
}

#[test]
fn tenant_scoped_authority_deny_aborts_whole_transaction() {
    let mut harness = Harness::with(vec![Grant::of(Mode::DenyTenant(beta().0))]);
    harness.tenants.insert(beta().0);
    let a = harness
        .execute(&cross_mint(alpha(), "mint_a", "asset:sword_001", "alice"))
        .unwrap();
    harness.apply(&a[0], StateType::UniqueAsset);
    let b = harness
        .execute(&cross_mint(beta(), "mint_b", "asset:shield_002", "carol"))
        .unwrap();
    harness.apply(&b[0], StateType::UniqueAsset);
    let authority = || Some(sample_authority());
    let requests = vec![
        cross_asset_transfer(alpha(), "xt_003", "asset:sword_001", "alice", "bob", 1, authority()),
        cross_asset_transfer(beta(), "xt_003", "asset:shield_002", "carol", "dave", 1, authority()),
    ];
    let error = harness.execute_cross_tenant(&requests).unwrap_err();
    assert!(matches!(error, ExecutorError::AtomicityViolation(_)));
    assert_eq!(
        harness.log,
        vec!["begin_multi:stexs.game.alpha,stexs.game.beta", "rollback"]
    );
}

#[test]
fn fully_replayed_cross_tenant_batch_aborts_and_rolls_back() {
    let mut harness = two_tenants();
    let requests = two_transfers("xt_004", 1, "40");
    let first = harness.execute_cross_tenant(&requests).unwrap();
    assert_eq!(first.len(), 2);
    assert_eq!(
        harness.log,
        vec!["begin_multi:stexs.game.alpha,stexs.game.beta", "commit"]
    );

    // The commit left every intent claimed with an identical payload.
    for request in &requests {
        let intent = &request.intent;
        harness.intents.insert(
            (intent.tenant_id.0.clone(), intent.intent_id.0.clone()),
            intent.clone(),
        );
    }
    let error = harness.execute_cross_tenant(&requests).unwrap_err();
    assert!(matches!(error, ExecutorError::AtomicityViolation(_)));
    assert_eq!(
        harness.log,
        vec![
            "begin_multi:stexs.game.alpha,stexs.game.beta",
            "commit",
            "begin_multi:stexs.game.alpha,stexs.game.beta",
            "rollback",
        ]
    );
}

#[test]
fn a_durable_cross_tenant_batch_replays_to_a_refusal() {
    let mut harness = two_tenants();
    let requests = two_transfers("xt_005", 1, "40");
    let first = harness.run_batch(BatchKind::CrossTenant, Some(Ok(())), &requests).unwrap();
    assert_eq!(first.len(), 2);
    let again = harness.run_batch(BatchKind::CrossTenant, Some(Ok(())), &requests);
    assert!(matches!(again, Err(ExecutorError::AtomicityViolation(_))));
    assert_eq!(harness.log, vec!["persist:4"]);
}

// --- Over many inputs -------------------------------------------------------

/// A stream of numbers that look random.
struct Draw(u64);

impl Draw {
    fn next(&mut self) -> u64 {
        self.0 ^= self.0 << 13;
        self.0 ^= self.0 >> 7;
        self.0 ^= self.0 << 17;
        self.0
    }

    fn wide(&mut self) -> u128 {
        (u128::from(self.next()) << 64) | u128::from(self.next())
    }
}

#[test]
fn execute_never_panics_on_arbitrary_intents() {
    let mut draw = Draw(0x9e37_79b9_7f4a_7c15);
    let mut harness = Harness::new();
    let operations = [
        "asset.mint", "asset.transfer", "asset.lock", "stack.credit", "stack.debit",
        "stack.consume", "balance.credit", "balance.debit", "balance.spend", "balance.transfer",
        "meter.consume", "meter.refill", "trade.settle", "entitlement.grant", "\u{7f}odd", "x",
    ];
    let types = [
        Some(StateType::UniqueAsset),
        Some(StateType::ConsumableStack),
        Some(StateType::FungibleBalance),
        Some(StateType::Entitlement),
        Some(StateType::MeteredResource),
        None,
    ];
    let names = ["amount", "to_owner", "to_subject", "unit", "subject", "status", "capacity"];
    for round in 0..600u64 {
        let mut entries = vec![("quantity", s("42"))];
        for name in names {
            let value = match draw.next() % 6 {
                0 => s(&draw.next().to_string()),
                1 => Value::Number(Number::PosInt(draw.next())),
                2 => Value::Number(Number::FloatBits(draw.next())),
                3 => s("bob"),
                4 => Value::Bool(true),
                _ => continue,
            };
            entries.push((name, value));
        }
        let request = intent(
            &format!("any_{}", round),
            operations[(draw.next() % operations.len() as u64) as usize],
            types[(draw.next() % types.len() as u64) as usize],
            draw.next() % 3,
            "asset:property",
            "account:example:player_123",
            &entries,
            None,
            None,
        );
        let result = harness.execute(&request);
        assert!(result.is_ok() || result.is_err());
        if let (Ok(events), Some(state_type)) = (result, request.intent.state_type) {
            for event in &events {
                harness.apply(event, state_type);
            }
        }
    }
}

#[test]
fn transfer_executes_atomically_net_zero_for_arbitrary_amounts() {
    let mut draw = Draw(7);
    let mut pairs = vec![(1, 1), (u128::MAX, u128::MAX), (u128::MAX, 1), (u128::from(u64::MAX), 9)];
    for _ in 0..60 {
        pairs.push((draw.wide().max(1), draw.wide().max(1)));
        pairs.push((u128::from(draw.next()).max(1), u128::from(draw.next()).max(1)));
    }
    for (source, raw_amount) in pairs {
        let mut harness = Harness::new();
        harness.funded(&source.to_string());
        let amount = raw_amount.min(source);
        let events = harness
            .execute(&balance_transfer(
                "transfer_001",
                "currency:gold",
                "alice",
                "bob",
                1,
                &amount.to_string(),
            ))
            .unwrap();
        assert_eq!(events.len(), 2);
        let read = |state: &ResourceState| payload_member(state, "balance").parse::<u128>().unwrap();
        let source_before = read(&events[0].before.state);
        let source_after = read(&events[0].after.state);
        let dest_after = read(&events[1].after.state);
        assert_eq!(source_before.saturating_sub(source_after), dest_after);
        assert_eq!(source_before.saturating_sub(source_after), amount);
        assert!(validate_batch_consistency(&events).is_ok());
    }
}

fn balance_projection(holder: &str, balance: u64) -> StateProjection {
    StateProjection {
        tenant_id: tenant(),
        resource_id: ResourceId(String::from("res:property")),
        state_type: StateType::FungibleBalance,
        version: 1,
        last_event_id: EventId::new(String::from("evt_01JZ8X2XRE5ZYW5V9R7VDQBSH4")).unwrap(),
        last_commit_id: CommitId::new(String::from("cmt_01JZ8X5HN3C4PXG5A9FGEWQF5W")).unwrap(),
        state_hash: ContentDigest::new([0u8; 32]),
        state: ResourceState::new(
            StateType::FungibleBalance,
            object(&[
                ("subject", s(holder)),
                ("balance", s(&balance.to_string())),
                ("unit", s("gold_minor")),
            ]),
        ),
    }
}

#[test]
fn transfer_after_state_is_deterministic_for_arbitrary_amounts() {
    let mut draw = Draw(99);
    for _ in 0..200 {
        let source = balance_projection("account:example:player_123", draw.next());
        let destination = balance_projection("account:example:player_456", draw.next());
        let amount = draw.next();
        let entries = inputs(&[
            ("to_subject", s("account:example:player_456")),
            ("amount", s(&amount.to_string())),
        ]);
        let operation = Operation(String::from("balance.transfer"));
        let first = transfer_after_state(&source, Some(&destination), &operation, &entries);
        let second = transfer_after_state(&source, Some(&destination), &operation, &entries);
        match (first, second) {
            (Ok(a), Ok(b)) => assert_eq!(a, b),
            (Err(a), Err(b)) => assert_eq!(a.message(), b.message()),
            _ => panic!("transfer_after_state is not deterministic"),
        }
    }
}

#[test]
fn cross_tenant_batch_is_atomic_and_deterministically_grouped() {
    let mut draw = Draw(5);
    let mut amounts = vec![0, 1, 99, 100, u128::MAX];
    for _ in 0..40 {
        amounts.push(draw.wide() % 130);
    }
    for raw_amount in amounts {
        let mut harness = two_tenants();
        let amount = raw_amount.min(100);
        let result = harness.execute_cross_tenant(&two_transfers("xt", 1, &amount.to_string()));
        match result {
            Ok(groups) => {
                assert_eq!(groups.len(), 2);
                assert_eq!(&groups[0].tenant, &alpha());
                assert_eq!(&groups[1].tenant, &beta());
                for group in &groups {
                    assert!(!group.events.is_empty());
                    for event in &group.events {
                        assert_eq!(&event.tenant_id, &group.tenant);
                    }
                }
            }
            Err(error) => {
                assert!(matches!(error, ExecutorError::AtomicityViolation(_)));
                assert_eq!(amount, 0);
            }
        }
    }
}
