//! One intent's way through the pipeline.
//!
//! An execution alternates between decisions, which are made here, and outside
//! work: canonical sizes and digests, clocks, stores, authorities, profile
//! rules. Each pause is a type of its own that says what is awaited; handing
//! the reply to its `resume` decides what comes next. The order of the pauses
//! is fixed: size and expiry, idempotency, signature, freshness of the
//! presented authority, tenant, current state, conflict gates, authority,
//! profile rules, after-state, events, and the claim of the intent id. No
//! event exists before every gate has been passed.
use vstd::prelude::*;

use crate::domain::digest::{ContentDigest, SignatureBlock};
use crate::domain::error::{check_size, DomainError, ProfileError, StateChronicleError};
use crate::domain::event::{Event, EVENT_SCHEMA};
use crate::domain::ids::{EventId, SubjectId};
use crate::domain::intent::{
    copy_authority, same_intent, value_leg_declared, AggregationPolicy, AuthorityProof, Intent,
    TrustGrantOutcome,
};
use crate::domain::state::{
    ResourceState, StateCommitment, StateProjection, StateType,
};
use crate::domain::time::{expired, Timestamp};
use crate::executor::authority::{
    allowed, bind_authority, binds, failure_report, law_passing_leaves_an_outcome, passes, Tally,
};
use crate::executor::conflict::{
    available, check_expected_version, check_expiry, check_idempotency_existing, check_owner,
    check_resource_availability, check_tenant_scope, owner_mismatch, version_expected,
};
use crate::executor::error::ExecutorError;
use crate::executor::pipeline::{
    absent_state, destination_holder, destination_in, empty_state_for, holder_for, holder_of,
    intent_store_report, is_transfer_operation, lookup_subject, map_intent_store_error, subject_for,
    map_trustgrant_error, store_report, transfers, trustgrant_report,
};
use crate::executor::transition::{
    after_state, apply, credited_state, payload_of, refused, state_type_of, transfer_after_state,
    type_for,
};
use crate::json::Json;
use crate::limits::MAX_INTENT_BYTES;
use crate::ports::errors::{IntentStoreError, StateIndexError, TenantStoreError, TrustGrantError};

verus! {

/// What an execution works on.
#[derive(Clone, Copy)]
pub struct Run<'a> {
    /// The intent.
    pub intent: &'a Intent,
    /// The detached signature over the intent, if any.
    pub signature: Option<&'a SignatureBlock>,
    /// Whether a settlement may declare a value leg on this route.
    pub allow_value_legs: bool,
    /// Whether the intent id is claimed when everything has passed.
    pub persist_intent: bool,
    /// How many authorities are configured.
    pub authorities: usize,
    /// The identity recorded on events.
    pub executor: &'a SubjectId,
}

/// What the active profile says about an operation.
#[derive(Debug, Clone, Copy, PartialEq, Eq)]
pub struct RuleFacts {
    /// Whether the operation needs an authority binding.
    pub requires_authority: bool,
    /// How authorities combine.
    pub policy: AggregationPolicy,
}

/// What only the outside can give to an event.
#[derive(Debug)]
pub struct Seal {
    /// The digest of the state before; not used when the state exists already.
    pub before_hash: Result<ContentDigest, StateChronicleError>,
    /// The digest of the state after.
    pub after_hash: Result<ContentDigest, StateChronicleError>,
    /// A fresh event id.
    pub event_id: EventId,
    /// The time.
    pub created_at: Timestamp,
}

/// Where an execution stands: paused for outside work, or done.
pub enum Step<'a> {
    /// Needs the size of the intent's canonical form, and the time.
    Canonicalize(AwaitCanonical<'a>),
    /// Needs the stored intent of the same id.
    LookUpIntent(AwaitIntent<'a>),
    /// Needs the verification of the signature.
    VerifySignature(AwaitVerified<'a>),
    /// Needs the freshness of the presented authority.
    CheckFreshness(AwaitFreshness<'a>),
    /// Needs to know whether the tenant exists.
    FindTenant(AwaitTenant<'a>),
    /// Needs the current state.
    LoadState(AwaitState<'a>),
    /// Needs the current state under its holder.
    ReloadState(AwaitReload<'a>),
    /// Needs what the profile says about the operation.
    ResolveRules(AwaitRules<'a>),
    /// Needs the evaluation of one authority.
    Evaluate(AwaitEvaluation<'a>),
    /// Needs the aggregate digest of the evaluations.
    Aggregate(AwaitAggregate<'a>),
    /// Needs the freshness of the aggregate proof.
    CheckBinding(AwaitBinding<'a>),
    /// Needs the verdict of the profile's rules.
    CheckRules(AwaitRuleCheck<'a>),
    /// Needs digests, an id and the time for the event.
    SealEvent(AwaitSeal<'a>),
    /// Needs the current state of a transfer's destination.
    LoadDestination(AwaitDestination<'a>),
    /// Needs digests, an id and the time for the destination's event.
    SealDestination(AwaitDestinationSeal<'a>),
    /// Needs the intent id claimed.
    ClaimIntent(AwaitClaim<'a>),
    /// Finished: the events, none for a replay, or the first failed check.
    Done(Result<Vec<Event>, ExecutorError>),
}

/// An optional value behind a reference.
pub open spec fn by_ref(current: Option<StateProjection>) -> Option<&'static StateProjection> {
    match current {
        Some(projection) => Some(&projection),
        None => None,
    }
}

/// The current version: zero when the resource does not exist.
pub open spec fn version_of(current: Option<StateProjection>) -> u64 {
    match current {
        Some(projection) => projection.version,
        None => 0,
    }
}

/// Whether a settlement declares a value leg on a route that moves none.
pub open spec fn misrouted(run: Run) -> bool {
    !run.allow_value_legs && run.intent.operation.0@ == "trade.settle"@ && value_leg_declared(
        *run.intent,
    )
}

/// Whether the conflict gates let an intent through.
pub open spec fn gates_open(run: Run, current: Option<StateProjection>) -> bool {
    version_expected(*run.intent, by_ref(current)) && (current is Some ==> owner_mismatch(
        current->0.state.payload@,
        run.intent.inputs@,
    ) is None && available(current->0, run.intent.operation.0@))
}

/// Whether an error is that of the first conflict gate that is closed.
pub open spec fn gate_report(
    error: ExecutorError,
    run: Run,
    current: Option<StateProjection>,
) -> bool {
    if !version_expected(*run.intent, by_ref(current)) {
        match error {
            ExecutorError::ResourceNotFound { resource } => current is None && resource@
                == run.intent.resource_id.0@,
            ExecutorError::ExpectedVersionMismatch { resource, expected, actual } =>
                current is Some && resource@ == run.intent.resource_id.0@ && expected
                == run.intent.expected_version && actual == current->0.version,
            _ => false,
        }
    } else if current is None {
        false
    } else if owner_mismatch(current->0.state.payload@, run.intent.inputs@) is Some {
        match error {
            ExecutorError::ActorMismatch { expected, actual } => owner_mismatch(
                current->0.state.payload@,
                run.intent.inputs@,
            ) == Some((expected@, actual@)),
            _ => false,
        }
    } else if !available(current->0, run.intent.operation.0@) {
        match error {
            ExecutorError::ResourceLocked { resource } => resource@ == current->0.resource_id.0@,
            _ => false,
        }
    } else {
        false
    }
}

/// Whether an event's authority is justified: absent exactly when the intent
/// presents none, and otherwise bound to passing evaluations of every
/// configured authority.
pub open spec fn authority_justified(run: Run, authority: Option<AuthorityProof>) -> bool {
    match authority {
        None => run.intent.authority is None,
        Some(bound) => run.intent.authority is Some && exists|
            policy: AggregationPolicy,
            replies: Seq<Result<TrustGrantOutcome, TrustGrantError>>,
            digest: ContentDigest,
        |
            replies.len() == run.authorities && #[trigger] passes(policy, replies)
                && #[trigger] binds(bound, allowed(replies), digest),
    }
}

/// Whether an event carries what its execution fixes: the intent's identity,
/// the executor and the authority.
pub open spec fn carries(event: Event, run: Run, authority: Option<AuthorityProof>) -> bool {
    &&& event.schema@ == EVENT_SCHEMA@
    &&& event.tenant_id == run.intent.tenant_id
    &&& event.intent_id == run.intent.intent_id
    &&& event.operation == run.intent.operation
    &&& event.resource_id == run.intent.resource_id
    &&& event.actor == run.intent.actor
    &&& event.executor == *run.executor
    &&& event.authority == authority
}

/// Whether a commitment records the state before a transition.
pub open spec fn commits_before(
    before: StateCommitment,
    current: Option<StateProjection>,
    state_type: StateType,
) -> bool {
    before.version == version_of(current) && match current {
        Some(projection) => before.state@ == projection.state@ && before.state_hash
            == projection.state_hash,
        None => before.state@ == absent_state(state_type),
    }
}

/// Whether an event is the transition of the intent's own resource.
pub open spec fn is_transition(
    event: Event,
    run: Run,
    state_type: StateType,
    current: Option<StateProjection>,
    authority: Option<AuthorityProof>,
) -> bool {
    &&& carries(event, run, authority)
    &&& commits_before(event.before, current, state_type)
    &&& event.after.version == event.before.version + 1
    &&& after_state(by_ref(current), run.intent.operation.0@, run.intent.inputs@) == Ok::<
        Json,
        Seq<char>,
    >(event.after.state.payload@)
    &&& type_for(by_ref(current), run.intent.operation.0@) == Some(event.after.state.state_type)
}

/// Whether an event is the credit of a transfer's destination.
pub open spec fn is_credit(
    event: Event,
    run: Run,
    state_type: StateType,
    source: StateProjection,
    destination: Option<StateProjection>,
    authority: Option<AuthorityProof>,
) -> bool {
    &&& carries(event, run, authority)
    &&& commits_before(event.before, destination, state_type)
    &&& event.after.version == event.before.version + 1
    &&& credited_state(
        source.state.payload@,
        payload_of(by_ref(destination)),
        run.intent.operation.0@,
        run.intent.inputs@,
    ) == Ok::<Json, Seq<char>>(event.after.state.payload@)
    &&& event.after.state.state_type == source.state_type
}

/// Whether events are what an accepted intent leads to: the transition of its
/// resource and, for a transfer, the credit of the destination.
pub open spec fn accepted_events(
    events: Seq<Event>,
    run: Run,
    state_type: StateType,
    current: Option<StateProjection>,
    destination: Option<StateProjection>,
    authority: Option<AuthorityProof>,
) -> bool {
    &&& gates_open(run, current)
    &&& authority_justified(run, authority)
    &&& events.len() == if transfers(run.intent.operation.0@) {
        2int
    } else {
        1int
    }
    &&& is_transition(events[0], run, state_type, current, authority)
    &&& events.len() == 2 ==> current is Some && is_credit(
        events[1],
        run,
        state_type,
        current->0,
        destination,
        authority,
    )
}

// ---------------------------------------------------------------------------
// Start, size and expiry.
// ---------------------------------------------------------------------------
/// Begins an execution.
///
/// A settlement that declares a value leg is turned away from a route that
/// moves none, before anything else happens.
pub fn begin<'a>(run: Run<'a>) -> (r: Step<'a>)
    ensures
        match r {
            Step::Canonicalize(next) => !misrouted(run) && next.run() == run,
            Step::Done(Err(ExecutorError::ValueLegSettleRouting { intent_id })) => misrouted(run)
                && intent_id@ == run.intent.intent_id.0@,
            _ => false,
        },
{
    if !run.allow_value_legs && run.intent.operation.is("trade.settle")
        && run.intent.declares_value_leg() {
        return Step::Done(
            Err(
                ExecutorError::ValueLegSettleRouting { intent_id: run.intent.intent_id.0.clone() },
            ),
        );
    }
    Step::Canonicalize(AwaitCanonical { run })
}

/// Waits for the size of the intent's canonical form, and the time.
pub struct AwaitCanonical<'a> {
    run: Run<'a>,
}

impl<'a> AwaitCanonical<'a> {
    /// What the execution works on.
    pub closed spec fn run(self) -> Run<'a> {
        self.run
    }

    /// Decides on size and expiry.
    pub fn resume(self, size: Result<usize, StateChronicleError>, now: Timestamp) -> (r: Step<'a>)
        ensures
            match (size, r) {
                (Ok(bytes), Step::LookUpIntent(next)) => bytes <= MAX_INTENT_BYTES && !expired(
                    self.run().intent.expires_at,
                    now,
                ) && next.run() == self.run(),
                (
                    Ok(bytes),
                    Step::Done(Err(ExecutorError::SizeLimitExceeded { name, limit, actual })),
                ) => bytes > MAX_INTENT_BYTES && name@ == "intent"@ && limit == MAX_INTENT_BYTES
                    && actual == bytes,
                (Ok(bytes), Step::Done(Err(ExecutorError::Expired { intent_id }))) => bytes
                    <= MAX_INTENT_BYTES && expired(self.run().intent.expires_at, now) && intent_id@
                    == self.run().intent.intent_id.0@,
                (Err(failure), Step::Done(Err(error))) => error == core_report(failure),
                _ => false,
            },
    {
        let bytes: usize = match size {
            Ok(bytes) => bytes,
            Err(failure) => {
                return Step::Done(Err(report_core(failure)));
            },
        };
        match check_size("intent", MAX_INTENT_BYTES, bytes) {
            Ok(()) => {},
            Err(failure) => {
                return Step::Done(Err(report_core(failure)));
            },
        }
        match check_expiry(self.run.intent, now) {
            Ok(()) => Step::LookUpIntent(AwaitIntent { run: self.run }),
            Err(error) => Step::Done(Err(error)),
        }
    }
}

/// The report of a failure of the protocol core.
pub open spec fn core_report(failure: StateChronicleError) -> ExecutorError {
    match failure {
        StateChronicleError::SizeLimitExceeded { name, limit, actual } => {
            ExecutorError::SizeLimitExceeded { name, limit, actual }
        },
        other => ExecutorError::Domain(DomainError::Core(other)),
    }
}

fn report_core(failure: StateChronicleError) -> (r: ExecutorError)
    ensures
        r == core_report(failure),
{
    ExecutorError::from(failure)
}

// ---------------------------------------------------------------------------
// Idempotency, signature, freshness.
// ---------------------------------------------------------------------------
/// Waits for the stored intent of the same id.
pub struct AwaitIntent<'a> {
    run: Run<'a>,
}

/// Where an execution goes once its signature, if any, has been verified.
pub open spec fn after_verified(r: Step, run: Run) -> bool {
    if run.intent.authority is Some && run.authorities > 0 {
        match r {
            Step::CheckFreshness(next) => next.run() == run,
            _ => false,
        }
    } else {
        after_fresh(r, run)
    }
}

/// Where an execution goes once the presented authority, if any, is fresh.
pub open spec fn after_fresh(r: Step, run: Run) -> bool {
    match r {
        Step::FindTenant(next) => run.intent.tenant_id.0@.len() > 0 && next.run() == run,
        Step::Done(Err(ExecutorError::TenantScopeMissing)) => run.intent.tenant_id.0@.len() == 0,
        _ => false,
    }
}

fn proceed_verified<'a>(run: Run<'a>) -> (r: Step<'a>)
    ensures
        after_verified(r, run),
{
    if run.intent.authority.is_some() && run.authorities > 0 {
        Step::CheckFreshness(AwaitFreshness { run })
    } else {
        proceed_fresh(run)
    }
}

fn proceed_fresh<'a>(run: Run<'a>) -> (r: Step<'a>)
    ensures
        after_fresh(r, run),
{
    match check_tenant_scope(run.intent) {
        Ok(()) => Step::FindTenant(AwaitTenant { run }),
        Err(error) => Step::Done(Err(error)),
    }
}

impl<'a> AwaitIntent<'a> {
    /// What the execution works on.
    pub closed spec fn run(self) -> Run<'a> {
        self.run
    }

    /// Decides on idempotency: a replay of an accepted intent ends without
    /// events, another intent under the same id is refused.
    pub fn resume(self, existing: Result<Option<Intent>, IntentStoreError>) -> (r: Step<'a>)
        ensures
            match existing {
                Err(failure) => r is Done && r->Done_0 is Err && intent_store_report(
                    r->Done_0->Err_0,
                    failure,
                    self.run().intent.intent_id.0@,
                ),
                Ok(Some(stored)) => match r {
                    Step::Done(Ok(events)) => same_intent(stored, *self.run().intent)
                        && events@.len() == 0,
                    Step::Done(Err(ExecutorError::DuplicateIntent { intent_id })) => !same_intent(
                        stored,
                        *self.run().intent,
                    ) && intent_id@ == self.run().intent.intent_id.0@,
                    _ => false,
                },
                Ok(None) => if self.run().signature is Some {
                    match r {
                        Step::VerifySignature(next) => next.run() == self.run(),
                        _ => false,
                    }
                } else {
                    after_verified(r, self.run())
                },
            },
    {
        match existing {
            Err(failure) => Step::Done(
                Err(map_intent_store_error(failure, self.run.intent.intent_id.as_str())),
            ),
            Ok(Some(stored)) => match check_idempotency_existing(&stored, self.run.intent) {
                Ok(()) => Step::Done(Ok(Vec::new())),
                Err(error) => Step::Done(Err(error)),
            },
            Ok(None) => {
                if self.run.signature.is_some() {
                    Step::VerifySignature(AwaitVerified { run: self.run })
                } else {
                    proceed_verified(self.run)
                }
            },
        }
    }
}

/// Waits for the verification of the signature over the canonical form.
pub struct AwaitVerified<'a> {
    run: Run<'a>,
}

impl<'a> AwaitVerified<'a> {
    /// What the execution works on.
    pub closed spec fn run(self) -> Run<'a> {
        self.run
    }

    /// Decides on the signature.
    pub fn resume(self, verified: Result<(), ExecutorError>) -> (r: Step<'a>)
        ensures
            match verified {
                Ok(()) => after_verified(r, self.run()),
                Err(error) => r is Done && r->Done_0 == Err::<Vec<Event>, ExecutorError>(error),
            },
    {
        match verified {
            Ok(()) => proceed_verified(self.run),
            Err(error) => Step::Done(Err(error)),
        }
    }
}

/// Waits for the primary authority's word that the presented proof is fresh.
pub struct AwaitFreshness<'a> {
    run: Run<'a>,
}

impl<'a> AwaitFreshness<'a> {
    /// What the execution works on.
    pub closed spec fn run(self) -> Run<'a> {
        self.run
    }

    /// Decides on the freshness of the presented authority.
    pub fn resume(self, fresh: Result<(), TrustGrantError>) -> (r: Step<'a>)
        ensures
            match fresh {
                Ok(()) => after_fresh(r, self.run()),
                Err(failure) => r is Done && r->Done_0 == Err::<Vec<Event>, ExecutorError>(
                    trustgrant_report(failure),
                ),
            },
    {
        match fresh {
            Ok(()) => proceed_fresh(self.run),
            Err(failure) => Step::Done(Err(map_trustgrant_error(failure))),
        }
    }
}

// ---------------------------------------------------------------------------
// Tenant and current state.
// ---------------------------------------------------------------------------
/// Waits to know whether the tenant exists.
pub struct AwaitTenant<'a> {
    run: Run<'a>,
}

impl<'a> AwaitTenant<'a> {
    /// What the execution works on.
    pub closed spec fn run(self) -> Run<'a> {
        self.run
    }

    /// Decides on the tenant, and on the state type that loading needs.
    pub fn resume(self, known: Result<bool, TenantStoreError>) -> (r: Step<'a>)
        ensures
            match (known, r) {
                (Err(failure), Step::Done(Err(error))) => store_report(error, failure.text()),
                (Ok(false), Step::Done(Err(ExecutorError::TenantNotFound { tenant }))) => tenant@
                    == self.run().intent.tenant_id.0@,
                (Ok(true), Step::Done(Err(ExecutorError::StateTypeRequired))) =>
                    self.run().intent.state_type is None,
                (Ok(true), Step::LoadState(next)) => self.run().intent.state_type == Some(
                    next.state_type(),
                ) && next.run() == self.run(),
                _ => false,
            },
    {
        match known {
            Err(failure) => Step::Done(Err(ExecutorError::Store(failure.message()))),
            Ok(false) => Step::Done(
                Err(ExecutorError::TenantNotFound { tenant: self.run.intent.tenant_id.0.clone() }),
            ),
            Ok(true) => match self.run.intent.state_type {
                None => Step::Done(Err(ExecutorError::StateTypeRequired)),
                Some(state_type) => Step::LoadState(AwaitState { run: self.run, state_type }),
            },
        }
    }
}

/// Waits for the current state: under the acting subject for subject-held
/// types, under the resource alone otherwise.
pub struct AwaitState<'a> {
    run: Run<'a>,
    state_type: StateType,
}

/// Where an execution goes once the current state is known.
pub open spec fn after_loaded(
    r: Step,
    run: Run,
    state_type: StateType,
    current: Option<StateProjection>,
) -> bool {
    match r {
        Step::ResolveRules(next) => gates_open(run, current) && next.run() == run
            && next.state_type() == state_type && next.current() == current,
        Step::Done(Err(error)) => gate_report(error, run, current),
        _ => false,
    }
}

fn pass_gates<'a>(
    run: Run<'a>,
    state_type: StateType,
    current: Option<StateProjection>,
) -> (r: Step<'a>)
    ensures
        after_loaded(r, run, state_type, current),
{
    match check_expected_version(run.intent, current.as_ref()) {
        Ok(()) => {},
        Err(error) => {
            return Step::Done(Err(error));
        },
    }
    match &current {
        Some(projection) => {
            match check_owner(run.intent, Some(projection), &run.intent.inputs) {
                Ok(()) => {},
                Err(error) => {
                    return Step::Done(Err(error));
                },
            }
            match check_resource_availability(projection, &run.intent.operation) {
                Ok(()) => {},
                Err(error) => {
                    return Step::Done(Err(error));
                },
            }
        },
        None => {},
    }
    Step::ResolveRules(AwaitRules { run, state_type, current })
}

/// Whether a state must be loaded again under its holder: the state names
/// another holder than the acting subject.
pub open spec fn held_by_another(
    run: Run,
    state_type: StateType,
    current: Option<StateProjection>,
) -> bool {
    holder_of(by_ref(current), *run.intent, state_type) is Some && holder_of(
        by_ref(current),
        *run.intent,
        state_type,
    ) != Some(run.intent.actor.0@)
}

impl<'a> AwaitState<'a> {
    /// What the execution works on.
    pub closed spec fn run(self) -> Run<'a> {
        self.run
    }

    /// The state type.
    pub closed spec fn state_type(self) -> StateType {
        self.state_type
    }

    /// The subject to load under, if any.
    pub fn subject(&self) -> (r: Option<&'a SubjectId>)
        ensures
            match lookup_subject(*self.run().intent, self.state_type()) {
                Some(subject) => r is Some && *r->0 == subject,
                None => r is None,
            },
    {
        subject_for(self.run.intent, self.state_type)
    }

    /// Decides whether the state is the holder's, and on the conflict gates.
    pub fn resume(self, loaded: Result<Option<StateProjection>, StateIndexError>) -> (r: Step<'a>)
        ensures
            match loaded {
                Err(failure) => r is Done && r->Done_0 is Err && store_report(
                    r->Done_0->Err_0,
                    failure.text(),
                ),
                Ok(current) => if held_by_another(self.run(), self.state_type(), current) {
                    match r {
                        Step::ReloadState(next) => next.run() == self.run() && next.state_type()
                            == self.state_type() && holder_of(
                            by_ref(current),
                            *self.run().intent,
                            self.state_type(),
                        ) == Some(next.holder()),
                        _ => false,
                    }
                } else {
                    after_loaded(r, self.run(), self.state_type(), current)
                },
            },
    {
        match loaded {
            Err(failure) => Step::Done(Err(ExecutorError::Store(failure.message()))),
            Ok(current) => {
                match holder_for(current.as_ref(), self.run.intent, self.state_type) {
                    Some(holder) => {
                        if !holder.same(&self.run.intent.actor) {
                            return Step::ReloadState(
                                AwaitReload { run: self.run, state_type: self.state_type, holder },
                            );
                        }
                    },
                    None => {},
                }
                pass_gates(self.run, self.state_type, current)
            },
        }
    }
}

/// Waits for the current state under the holder that the state names.
pub struct AwaitReload<'a> {
    run: Run<'a>,
    state_type: StateType,
    holder: SubjectId,
}

impl<'a> AwaitReload<'a> {
    /// What the execution works on.
    pub closed spec fn run(self) -> Run<'a> {
        self.run
    }

    /// The state type.
    pub closed spec fn state_type(self) -> StateType {
        self.state_type
    }

    /// The holder.
    pub closed spec fn holder(self) -> Seq<char> {
        self.holder.0@
    }

    /// The subject to load under.
    pub fn subject(&self) -> (r: &SubjectId)
        ensures
            r.0@ == self.holder(),
    {
        &self.holder
    }

    /// Decides on the conflict gates.
    pub fn resume(self, loaded: Result<Option<StateProjection>, StateIndexError>) -> (r: Step<'a>)
        ensures
            match loaded {
                Err(failure) => r is Done && r->Done_0 is Err && store_report(
                    r->Done_0->Err_0,
                    failure.text(),
                ),
                Ok(current) => after_loaded(r, self.run(), self.state_type(), current),
            },
    {
        match loaded {
            Err(failure) => Step::Done(Err(ExecutorError::Store(failure.message()))),
            Ok(current) => pass_gates(self.run, self.state_type, current),
        }
    }
}

// ---------------------------------------------------------------------------
// Authority.
// ---------------------------------------------------------------------------
/// Waits for what the active profile says about the operation.
pub struct AwaitRules<'a> {
    run: Run<'a>,
    state_type: StateType,
    current: Option<StateProjection>,
}

impl<'a> AwaitRules<'a> {
    #[verifier::type_invariant]
    spec fn passed(self) -> bool {
        gates_open(self.run, self.current)
    }

    /// What the execution works on.
    pub closed spec fn run(self) -> Run<'a> {
        self.run
    }

    /// The state type.
    pub closed spec fn state_type(self) -> StateType {
        self.state_type
    }

    /// The current state.
    pub closed spec fn current(self) -> Option<StateProjection> {
        self.current
    }

    /// The state type to look the rules up under.
    pub fn rules_for(&self) -> (r: StateType)
        ensures
            r == self.state_type(),
    {
        self.state_type
    }

    /// Decides whether authorities are asked: never for an intent that
    /// presents none, which is refused where the profile needs one.
    pub fn resume(self, rules: Option<RuleFacts>) -> (r: Step<'a>)
        ensures
            match rules {
                None => r is Done && refused(r->Done_0, "unknown state type"@),
                Some(facts) => if self.run().intent.authority is None {
                    match r {
                        Step::CheckRules(next) => !facts.requires_authority && next.run()
                            == self.run() && next.state_type() == self.state_type()
                            && next.current() == self.current() && next.authority() is None,
                        Step::Done(Err(ExecutorError::AuthorityMissing { operation })) =>
                            facts.requires_authority && operation@
                            == self.run().intent.operation.0@,
                        _ => false,
                    }
                } else {
                    match r {
                        Step::Evaluate(next) => self.run().authorities > 0 && next.run()
                            == self.run() && next.state_type() == self.state_type()
                            && next.current() == self.current() && next.policy() == facts.policy
                            && next.replies().len() == 0,
                        Step::Done(Err(ExecutorError::AuthorityUnavailable(message))) =>
                            self.run().authorities == 0 && message@ == "no authority configured"@,
                        _ => false,
                    }
                },
            },
    {
        proof {
            use_type_invariant(&self);
        }
        let facts = match rules {
            None => {
                return Step::Done(
                    Err(ExecutorError::TransitionInvalid("unknown state type".to_owned())),
                );
            },
            Some(facts) => facts,
        };
        if self.run.intent.authority.is_none() {
            if facts.requires_authority {
                return Step::Done(
                    Err(
                        ExecutorError::AuthorityMissing {
                            operation: self.run.intent.operation.0.clone(),
                        },
                    ),
                );
            }
            return Step::CheckRules(
                AwaitRuleCheck {
                    run: self.run,
                    state_type: self.state_type,
                    current: self.current,
                    authority: None,
                },
            );
        }
        if self.run.authorities == 0 {
            return Step::Done(
                Err(ExecutorError::AuthorityUnavailable("no authority configured".to_owned())),
            );
        }
        Step::Evaluate(
            AwaitEvaluation {
                run: self.run,
                state_type: self.state_type,
                current: self.current,
                policy: facts.policy,
                tally: Tally::new(),
            },
        )
    }
}

/// Waits for the evaluation of the next authority.
pub struct AwaitEvaluation<'a> {
    run: Run<'a>,
    state_type: StateType,
    current: Option<StateProjection>,
    policy: AggregationPolicy,
    tally: Tally,
}

impl<'a> AwaitEvaluation<'a> {
    #[verifier::type_invariant]
    spec fn passed(self) -> bool {
        gates_open(self.run, self.current) && self.run.intent.authority is Some
            && self.tally.replies().len() < self.run.authorities
    }

    /// What the execution works on.
    pub closed spec fn run(self) -> Run<'a> {
        self.run
    }

    /// The state type.
    pub closed spec fn state_type(self) -> StateType {
        self.state_type
    }

    /// The current state.
    pub closed spec fn current(self) -> Option<StateProjection> {
        self.current
    }

    /// How authorities combine.
    pub closed spec fn policy(self) -> AggregationPolicy {
        self.policy
    }

    /// The replies so far.
    pub closed spec fn replies(self) -> Seq<Result<TrustGrantOutcome, TrustGrantError>> {
        self.tally.replies()
    }

    /// Which authority to ask.
    pub fn index(&self) -> (r: usize)
        ensures
            r == self.replies().len(),
            r < self.run().authorities,
    {
        proof {
            use_type_invariant(self);
        }
        self.tally.asked()
    }

    /// Records the reply; after the last one, decides under the policy.
    pub fn resume(self, reply: Result<TrustGrantOutcome, TrustGrantError>) -> (r: Step<'a>)
        ensures
            ({
                let replies = self.replies().push(reply);
                if replies.len() < self.run().authorities {
                    match r {
                        Step::Evaluate(next) => next.run() == self.run() && next.state_type()
                            == self.state_type() && next.current() == self.current()
                            && next.policy() == self.policy() && next.replies() == replies,
                        _ => false,
                    }
                } else if passes(self.policy(), replies) {
                    match r {
                        Step::Aggregate(next) => next.run() == self.run() && next.state_type()
                            == self.state_type() && next.current() == self.current()
                            && next.policy() == self.policy() && next.replies() == replies,
                        _ => false,
                    }
                } else {
                    r is Done && r->Done_0 == Err::<Vec<Event>, ExecutorError>(
                        failure_report(replies),
                    )
                }
            }),
    {
        proof {
            use_type_invariant(&self);
        }
        let AwaitEvaluation { run, state_type, current, policy, tally } = self;
        let ghost replies = tally.replies().push(reply);
        let tally = tally.record(reply);
        if tally.asked() < run.authorities {
            return Step::Evaluate(AwaitEvaluation { run, state_type, current, policy, tally });
        }
        match tally.conclude(policy) {
            Ok(outcomes) => Step::Aggregate(
                AwaitAggregate {
                    run,
                    state_type,
                    current,
                    policy,
                    outcomes,
                    replies: Ghost(replies),
                },
            ),
            Err(error) => Step::Done(Err(error)),
        }
    }
}

/// Waits for the aggregate digest of the allowing evaluations.
pub struct AwaitAggregate<'a> {
    run: Run<'a>,
    state_type: StateType,
    current: Option<StateProjection>,
    policy: AggregationPolicy,
    outcomes: Vec<TrustGrantOutcome>,
    replies: Ghost<Seq<Result<TrustGrantOutcome, TrustGrantError>>>,
}

impl<'a> AwaitAggregate<'a> {
    #[verifier::type_invariant]
    spec fn passed(self) -> bool {
        &&& gates_open(self.run, self.current)
        &&& self.run.intent.authority is Some
        &&& self.replies@.len() == self.run.authorities
        &&& self.run.authorities > 0
        &&& passes(self.policy, self.replies@)
        &&& self.outcomes@ == allowed(self.replies@)
    }

    /// What the execution works on.
    pub closed spec fn run(self) -> Run<'a> {
        self.run
    }

    /// The state type.
    pub closed spec fn state_type(self) -> StateType {
        self.state_type
    }

    /// The current state.
    pub closed spec fn current(self) -> Option<StateProjection> {
        self.current
    }

    /// How authorities combine.
    pub closed spec fn policy(self) -> AggregationPolicy {
        self.policy
    }

    /// The replies of all authorities.
    pub closed spec fn replies(self) -> Seq<Result<TrustGrantOutcome, TrustGrantError>> {
        self.replies@
    }

    /// The policy to aggregate under.
    pub fn aggregation(&self) -> (r: AggregationPolicy)
        ensures
            r == self.policy(),
    {
        self.policy
    }

    /// The digests to aggregate, in the order of the authorities.
    pub fn digests(&self) -> (r: Vec<ContentDigest>)
        ensures
            r@.len() == allowed(self.replies()).len(),
            r@.len() > 0,
            forall|i: int|
                0 <= i < r@.len() ==> #[trigger] r@[i] == allowed(
                    self.replies(),
                )[i].evaluation_digest,
    {
        proof {
            use_type_invariant(self);
            law_passing_leaves_an_outcome(self.policy, self.replies@);
        }
        let mut digests: Vec<ContentDigest> = Vec::new();
        let mut i: usize = 0;
        while i < self.outcomes.len()
            invariant
                i <= self.outcomes@.len(),
                digests@.len() == i,
                forall|k: int|
                    0 <= k < i ==> #[trigger] digests@[k] == self.outcomes@[k].evaluation_digest,
            decreases self.outcomes@.len() - i,
        {
            digests.push(self.outcomes[i].evaluation_digest);
            i = i + 1;
        }
        digests
    }

    /// Binds the evaluations; the proof's freshness is checked next.
    pub fn resume(self, digest: ContentDigest) -> (r: Step<'a>)
        ensures
            match r {
                Step::CheckBinding(next) => next.run() == self.run() && next.state_type()
                    == self.state_type() && next.current() == self.current() && binds(
                    next.authority(),
                    allowed(self.replies()),
                    digest,
                ),
                _ => false,
            },
    {
        proof {
            use_type_invariant(&self);
            law_passing_leaves_an_outcome(self.policy, self.replies@);
        }
        let bound = bind_authority(&self.outcomes, digest);
        assert(passes(self.policy, self.replies@) && binds(bound, allowed(self.replies@), digest));
        Step::CheckBinding(
            AwaitBinding {
                run: self.run,
                state_type: self.state_type,
                current: self.current,
                authority: bound,
            },
        )
    }
}

/// Waits for the primary authority's word that the aggregate proof is fresh.
pub struct AwaitBinding<'a> {
    run: Run<'a>,
    state_type: StateType,
    current: Option<StateProjection>,
    authority: AuthorityProof,
}

impl<'a> AwaitBinding<'a> {
    #[verifier::type_invariant]
    spec fn passed(self) -> bool {
        gates_open(self.run, self.current) && authority_justified(self.run, Some(self.authority))
    }

    /// What the execution works on.
    pub closed spec fn run(self) -> Run<'a> {
        self.run
    }

    /// The state type.
    pub closed spec fn state_type(self) -> StateType {
        self.state_type
    }

    /// The current state.
    pub closed spec fn current(self) -> Option<StateProjection> {
        self.current
    }

    /// The aggregate proof.
    pub closed spec fn authority(self) -> AuthorityProof {
        self.authority
    }

    /// The proof whose freshness is in question.
    pub fn bound(&self) -> (r: &AuthorityProof)
        ensures
            *r == self.authority(),
    {
        &self.authority
    }

    /// Decides on the freshness of the aggregate proof.
    pub fn resume(self, fresh: Result<(), TrustGrantError>) -> (r: Step<'a>)
        ensures
            match fresh {
                Ok(()) => match r {
                    Step::CheckRules(next) => next.run() == self.run() && next.state_type()
                        == self.state_type() && next.current() == self.current()
                        && next.authority() == Some(self.authority()),
                    _ => false,
                },
                Err(failure) => r is Done && r->Done_0 == Err::<Vec<Event>, ExecutorError>(
                    trustgrant_report(failure),
                ),
            },
    {
        proof {
            use_type_invariant(&self);
        }
        match fresh {
            Ok(()) => Step::CheckRules(
                AwaitRuleCheck {
                    run: self.run,
                    state_type: self.state_type,
                    current: self.current,
                    authority: Some(self.authority),
                },
            ),
            Err(failure) => Step::Done(Err(map_trustgrant_error(failure))),
        }
    }
}

// ---------------------------------------------------------------------------
// Profile rules and after-state.
// ---------------------------------------------------------------------------
/// Waits for the verdict of the profile's rules on operation, state and inputs.
pub struct AwaitRuleCheck<'a> {
    run: Run<'a>,
    state_type: StateType,
    current: Option<StateProjection>,
    authority: Option<AuthorityProof>,
}

impl<'a> AwaitRuleCheck<'a> {
    #[verifier::type_invariant]
    spec fn passed(self) -> bool {
        gates_open(self.run, self.current) && authority_justified(self.run, self.authority)
    }

    /// What the execution works on.
    pub closed spec fn run(self) -> Run<'a> {
        self.run
    }

    /// The state type.
    pub closed spec fn state_type(self) -> StateType {
        self.state_type
    }

    /// The current state.
    pub closed spec fn current(self) -> Option<StateProjection> {
        self.current
    }

    /// The authority to bind.
    pub closed spec fn authority(self) -> Option<AuthorityProof> {
        self.authority
    }

    /// The state type to look the rules up under.
    pub fn rules_for(&self) -> (r: StateType)
        ensures
            r == self.state_type(),
    {
        self.state_type
    }

    /// The state that the rules judge.
    pub fn projection(&self) -> (r: Option<&StateProjection>)
        ensures
            r == by_ref(self.current()),
    {
        match &self.current {
            Some(projection) => Some(projection),
            None => None,
        }
    }

    /// Decides on the profile's verdict and computes the after-state.
    pub fn resume(self, verdict: Result<(), ProfileError>) -> (r: Step<'a>)
        ensures
            match verdict {
                Err(failure) => r is Done && r->Done_0 == Err::<Vec<Event>, ExecutorError>(
                    ExecutorError::Profile(failure),
                ),
                Ok(()) => {
                    let op = self.run().intent.operation.0@;
                    let inputs = self.run().intent.inputs@;
                    match after_state(by_ref(self.current()), op, inputs) {
                        Err(complaint) => r is Done && refused(r->Done_0, complaint),
                        Ok(payload) => if version_of(self.current()) == u64::MAX {
                            r is Done && refused(r->Done_0, "version overflow"@)
                        } else {
                            match r {
                                Step::SealEvent(next) => next.run() == self.run()
                                    && next.state_type() == self.state_type() && next.current()
                                    == self.current() && next.authority() == self.authority()
                                    && next.after().payload@ == payload && type_for(
                                    by_ref(self.current()),
                                    op,
                                ) == Some(next.after().state_type),
                                _ => false,
                            }
                        },
                    }
                },
            },
    {
        proof {
            use_type_invariant(&self);
        }
        match verdict {
            Err(failure) => {
                return Step::Done(Err(ExecutorError::Profile(failure)));
            },
            Ok(()) => {},
        }
        let AwaitRuleCheck { run, state_type, current, authority } = self;
        let payload = match apply(current.as_ref(), &run.intent.operation, &run.intent.inputs) {
            Ok(payload) => payload,
            Err(error) => {
                return Step::Done(Err(error));
            },
        };
        let after_type = match state_type_of(current.as_ref(), &run.intent.operation) {
            Ok(after_type) => after_type,
            Err(error) => {
                return Step::Done(Err(error));
            },
        };
        let version: u64 = match &current {
            Some(projection) => projection.version,
            None => 0,
        };
        if version == u64::MAX {
            return Step::Done(
                Err(ExecutorError::TransitionInvalid("version overflow".to_owned())),
            );
        }
        let after = ResourceState::new(after_type, payload);
        let before = match &current {
            Some(projection) => projection.state.clone(),
            None => empty_state_for(state_type),
        };
        Step::SealEvent(AwaitSeal { run, state_type, current, authority, before, after })
    }
}

// ---------------------------------------------------------------------------
// Events.
// ---------------------------------------------------------------------------
/// Whether an error is the report of the digest that a seal lacks.
pub open spec fn seal_report(
    error: ExecutorError,
    seal: Seal,
    current: Option<StateProjection>,
) -> bool {
    if current is None && seal.before_hash is Err {
        error == core_report(seal.before_hash->Err_0)
    } else {
        seal.after_hash is Err && error == core_report(seal.after_hash->Err_0)
    }
}

/// Whether a seal has the digests that an event needs.
pub open spec fn seal_complete(seal: Seal, current: Option<StateProjection>) -> bool {
    (current is None ==> seal.before_hash is Ok) && seal.after_hash is Ok
}

/// Whether an event bears a seal.
pub open spec fn bears(event: Event, seal: Seal, current: Option<StateProjection>) -> bool {
    event.event_id == seal.event_id && event.created_at == seal.created_at
        && event.after.state_hash == seal.after_hash->Ok_0 && (current is None
        ==> event.before.state_hash == seal.before_hash->Ok_0)
}

fn seal_event<'a>(
    run: Run<'a>,
    state_type: StateType,
    current: &Option<StateProjection>,
    authority: Option<AuthorityProof>,
    before: ResourceState,
    after: ResourceState,
    seal: Seal,
) -> (r: Result<Event, ExecutorError>)
    requires
        version_of(*current) < u64::MAX,
        before@ == match *current {
            Some(projection) => projection.state@,
            None => absent_state(state_type),
        },
    ensures
        match r {
            Ok(event) => seal_complete(seal, *current) && bears(event, seal, *current) && carries(
                event,
                run,
                authority,
            ) && commits_before(event.before, *current, state_type) && event.after.version
                == event.before.version + 1 && event.after.state == after,
            Err(error) => !seal_complete(seal, *current) && seal_report(error, seal, *current),
        },
{
    let before_hash = match current {
        Some(projection) => projection.state_hash,
        None => match seal.before_hash {
            Ok(hash) => hash,
            Err(failure) => {
                return Err(report_core(failure));
            },
        },
    };
    let after_hash = match seal.after_hash {
        Ok(hash) => hash,
        Err(failure) => {
            return Err(report_core(failure));
        },
    };
    let version: u64 = match current {
        Some(projection) => projection.version,
        None => 0,
    };
    Ok(
        Event::new(
            run.intent.tenant_id.clone(),
            seal.event_id,
            run.intent.intent_id.clone(),
            run.intent.operation.clone(),
            run.intent.resource_id.clone(),
            run.intent.actor.clone(),
            StateCommitment { version, state_hash: before_hash, state: before },
            StateCommitment { version: version + 1, state_hash: after_hash, state: after },
            authority,
            run.executor.clone(),
            seal.created_at,
        ),
    )
}

/// Waits for digests, an id and the time for the event.
pub struct AwaitSeal<'a> {
    run: Run<'a>,
    state_type: StateType,
    current: Option<StateProjection>,
    authority: Option<AuthorityProof>,
    before: ResourceState,
    after: ResourceState,
}

/// Where an execution goes once its events are complete.
pub open spec fn after_events(r: Step, run: Run, events: Seq<Event>) -> bool {
    if run.persist_intent {
        match r {
            Step::ClaimIntent(next) => next.run() == run && next.events() == events,
            _ => false,
        }
    } else {
        match r {
            Step::Done(Ok(emitted)) => emitted@ == events,
            _ => false,
        }
    }
}

fn finish<'a>(
    run: Run<'a>,
    events: Vec<Event>,
    Ghost(state_type): Ghost<StateType>,
    Ghost(current): Ghost<Option<StateProjection>>,
    Ghost(destination): Ghost<Option<StateProjection>>,
    Ghost(authority): Ghost<Option<AuthorityProof>>,
) -> (r: Step<'a>)
    requires
        accepted_events(events@, run, state_type, current, destination, authority),
    ensures
        after_events(r, run, events@),
{
    if run.persist_intent {
        Step::ClaimIntent(
            AwaitClaim {
                run,
                events,
                state_type: Ghost(state_type),
                current: Ghost(current),
                destination: Ghost(destination),
                authority: Ghost(authority),
            },
        )
    } else {
        Step::Done(Ok(events))
    }
}

impl<'a> AwaitSeal<'a> {
    #[verifier::type_invariant]
    spec fn passed(self) -> bool {
        &&& gates_open(self.run, self.current)
        &&& authority_justified(self.run, self.authority)
        &&& version_of(self.current) < u64::MAX
        &&& self.before@ == match self.current {
            Some(projection) => projection.state@,
            None => absent_state(self.state_type),
        }
        &&& after_state(by_ref(self.current), self.run.intent.operation.0@, self.run.intent.inputs@)
            == Ok::<Json, Seq<char>>(self.after.payload@)
        &&& type_for(by_ref(self.current), self.run.intent.operation.0@) == Some(
            self.after.state_type,
        )
    }

    /// What the execution works on.
    pub closed spec fn run(self) -> Run<'a> {
        self.run
    }

    /// The state type.
    pub closed spec fn state_type(self) -> StateType {
        self.state_type
    }

    /// The current state.
    pub closed spec fn current(self) -> Option<StateProjection> {
        self.current
    }

    /// The authority to bind.
    pub closed spec fn authority(self) -> Option<AuthorityProof> {
        self.authority
    }

    /// The state after.
    pub closed spec fn after(self) -> ResourceState {
        self.after
    }

    /// The state before whose digest is needed: that of a resource that does
    /// not exist yet.
    pub fn new_before(&self) -> (r: Option<&ResourceState>)
        ensures
            match r {
                Some(state) => self.current() is None && state@ == absent_state(self.state_type()),
                None => self.current() is Some,
            },
    {
        proof {
            use_type_invariant(self);
        }
        match &self.current {
            Some(_) => None,
            None => Some(&self.before),
        }
    }

    /// The state after, whose digest is needed.
    pub fn after_to_digest(&self) -> (r: &ResourceState)
        ensures
            *r == self.after(),
    {
        &self.after
    }

    /// Builds the event; a transfer goes on to its destination.
    pub fn resume(self, seal: Seal) -> (r: Step<'a>)
        ensures
            if !seal_complete(seal, self.current()) {
                r is Done && r->Done_0 is Err && seal_report(
                    r->Done_0->Err_0,
                    seal,
                    self.current(),
                )
            } else if !transfers(self.run().intent.operation.0@) {
                exists|event: Event|
                    after_events(r, self.run(), seq![event]) && #[trigger] bears(
                        event,
                        seal,
                        self.current(),
                    ) && accepted_events(
                        seq![event],
                        self.run(),
                        self.state_type(),
                        self.current(),
                        None,
                        self.authority(),
                    )
            } else {
                match destination_in(self.run().intent.inputs@) {
                    None => r is Done && refused(r->Done_0, "missing input `to_subject`"@),
                    Some(holder) => match r {
                        Step::LoadDestination(next) => next.run() == self.run()
                            && next.state_type() == self.state_type() && next.current()
                            == self.current() && next.authority() == self.authority()
                            && next.holder() == holder && is_transition(
                            next.event(),
                            self.run(),
                            self.state_type(),
                            self.current(),
                            self.authority(),
                        ) && bears(next.event(), seal, self.current()),
                        _ => false,
                    },
                }
            },
    {
        proof {
            use_type_invariant(&self);
        }
        let ghost given = seal;
        let AwaitSeal { run, state_type, current, authority, before, after } = self;
        let event_authority = copy_authority(&authority);
        let event = match seal_event(
            run,
            state_type,
            &current,
            event_authority,
            before,
            after,
            seal,
        ) {
            Ok(event) => event,
            Err(error) => {
                return Step::Done(Err(error));
            },
        };
        if !is_transfer_operation(&run.intent.operation) {
            let ghost emitted = event;
            let mut events: Vec<Event> = Vec::new();
            events.push(event);
            assert(events@ =~= seq![emitted]);
            let step = finish(
                run,
                events,
                Ghost(state_type),
                Ghost(current),
                Ghost(None),
                Ghost(authority),
            );
            assert(after_events(step, run, seq![emitted]));
            return step;
        }
        match destination_holder(&run.intent.inputs) {
            Err(error) => Step::Done(Err(error)),
            Ok(holder) => Step::LoadDestination(
                AwaitDestination { run, state_type, current, authority, event, holder },
            ),
        }
    }
}

/// Waits for the current state of a transfer's destination.
pub struct AwaitDestination<'a> {
    run: Run<'a>,
    state_type: StateType,
    current: Option<StateProjection>,
    authority: Option<AuthorityProof>,
    event: Event,
    holder: SubjectId,
}

impl<'a> AwaitDestination<'a> {
    #[verifier::type_invariant]
    spec fn passed(self) -> bool {
        &&& gates_open(self.run, self.current)
        &&& authority_justified(self.run, self.authority)
        &&& transfers(self.run.intent.operation.0@)
        &&& is_transition(self.event, self.run, self.state_type, self.current, self.authority)
    }

    /// What the execution works on.
    pub closed spec fn run(self) -> Run<'a> {
        self.run
    }

    /// The state type.
    pub closed spec fn state_type(self) -> StateType {
        self.state_type
    }

    /// The current state of the source.
    pub closed spec fn current(self) -> Option<StateProjection> {
        self.current
    }

    /// The authority to bind.
    pub closed spec fn authority(self) -> Option<AuthorityProof> {
        self.authority
    }

    /// The event of the source.
    pub closed spec fn event(self) -> Event {
        self.event
    }

    /// The destination's holder.
    pub closed spec fn holder(self) -> Seq<char> {
        self.holder.0@
    }

    /// The subject to load under.
    pub fn subject(&self) -> (r: &SubjectId)
        ensures
            r.0@ == self.holder(),
    {
        &self.holder
    }

    /// Computes the credited state of the destination.
    pub fn resume(self, loaded: Result<Option<StateProjection>, StateIndexError>) -> (r: Step<'a>)
        ensures
            match loaded {
                Err(failure) => r is Done && r->Done_0 is Err && store_report(
                    r->Done_0->Err_0,
                    failure.text(),
                ),
                Ok(destination) => match self.current() {
                    None => r is Done && refused(
                        r->Done_0,
                        "transfer requires an existing source resource"@,
                    ),
                    Some(source) => match credited_state(
                        source.state.payload@,
                        payload_of(by_ref(destination)),
                        self.run().intent.operation.0@,
                        self.run().intent.inputs@,
                    ) {
                        Err(complaint) => r is Done && refused(r->Done_0, complaint),
                        Ok(payload) => if version_of(destination) == u64::MAX {
                            r is Done && refused(r->Done_0, "version overflow"@)
                        } else {
                            match r {
                                Step::SealDestination(next) => next.run() == self.run()
                                    && next.state_type() == self.state_type() && next.current()
                                    == self.current() && next.authority() == self.authority()
                                    && next.event() == self.event() && next.destination()
                                    == destination && next.after().payload@ == payload
                                    && next.after().state_type == source.state_type,
                                _ => false,
                            }
                        },
                    },
                },
            },
    {
        proof {
            use_type_invariant(&self);
        }
        let destination = match loaded {
            Ok(destination) => destination,
            Err(failure) => {
                return Step::Done(Err(ExecutorError::Store(failure.message())));
            },
        };
        let AwaitDestination { run, state_type, current, authority, event, holder: _ } = self;
        let (payload, after_type) = match &current {
            None => {
                return Step::Done(
                    Err(
                        ExecutorError::TransitionInvalid(
                            "transfer requires an existing source resource".to_owned(),
                        ),
                    ),
                );
            },
            Some(source) => match transfer_after_state(
                source,
                destination.as_ref(),
                &run.intent.operation,
                &run.intent.inputs,
            ) {
                Ok(payload) => (payload, source.state_type),
                Err(error) => {
                    return Step::Done(Err(error));
                },
            },
        };
        let version: u64 = match &destination {
            Some(projection) => projection.version,
            None => 0,
        };
        if version == u64::MAX {
            return Step::Done(
                Err(ExecutorError::TransitionInvalid("version overflow".to_owned())),
            );
        }
        let after = ResourceState::new(after_type, payload);
        let before = match &destination {
            Some(projection) => projection.state.clone(),
            None => empty_state_for(state_type),
        };
        Step::SealDestination(
            AwaitDestinationSeal {
                run,
                state_type,
                current,
                authority,
                event,
                destination,
                before,
                after,
            },
        )
    }
}

/// Waits for digests, an id and the time for the destination's event.
pub struct AwaitDestinationSeal<'a> {
    run: Run<'a>,
    state_type: StateType,
    current: Option<StateProjection>,
    authority: Option<AuthorityProof>,
    event: Event,
    destination: Option<StateProjection>,
    before: ResourceState,
    after: ResourceState,
}

impl<'a> AwaitDestinationSeal<'a> {
    #[verifier::type_invariant]
    spec fn passed(self) -> bool {
        &&& gates_open(self.run, self.current)
        &&& authority_justified(self.run, self.authority)
        &&& transfers(self.run.intent.operation.0@)
        &&& is_transition(self.event, self.run, self.state_type, self.current, self.authority)
        &&& self.current is Some
        &&& version_of(self.destination) < u64::MAX
        &&& self.before@ == match self.destination {
            Some(projection) => projection.state@,
            None => absent_state(self.state_type),
        }
        &&& credited_state(
            self.current->0.state.payload@,
            payload_of(by_ref(self.destination)),
            self.run.intent.operation.0@,
            self.run.intent.inputs@,
        ) == Ok::<Json, Seq<char>>(self.after.payload@)
        &&& self.after.state_type == self.current->0.state_type
    }

    /// What the execution works on.
    pub closed spec fn run(self) -> Run<'a> {
        self.run
    }

    /// The state type.
    pub closed spec fn state_type(self) -> StateType {
        self.state_type
    }

    /// The current state of the source.
    pub closed spec fn current(self) -> Option<StateProjection> {
        self.current
    }

    /// The authority to bind.
    pub closed spec fn authority(self) -> Option<AuthorityProof> {
        self.authority
    }

    /// The event of the source.
    pub closed spec fn event(self) -> Event {
        self.event
    }

    /// The current state of the destination.
    pub closed spec fn destination(self) -> Option<StateProjection> {
        self.destination
    }

    /// The destination's state after.
    pub closed spec fn after(self) -> ResourceState {
        self.after
    }

    /// The state before whose digest is needed: that of a destination that
    /// the credit creates.
    pub fn new_before(&self) -> (r: Option<&ResourceState>)
        ensures
            match r {
                Some(state) => self.destination() is None && state@ == absent_state(
                    self.state_type(),
                ),
                None => self.destination() is Some,
            },
    {
        proof {
            use_type_invariant(self);
        }
        match &self.destination {
            Some(_) => None,
            None => Some(&self.before),
        }
    }

    /// The state after, whose digest is needed.
    pub fn after_to_digest(&self) -> (r: &ResourceState)
        ensures
            *r == self.after(),
    {
        &self.after
    }

    /// Builds the destination's event; the transfer is complete.
    pub fn resume(self, seal: Seal) -> (r: Step<'a>)
        ensures
            if !seal_complete(seal, self.destination()) {
                r is Done && r->Done_0 is Err && seal_report(
                    r->Done_0->Err_0,
                    seal,
                    self.destination(),
                )
            } else {
                exists|credit: Event|
                    after_events(r, self.run(), seq![self.event(), credit]) && #[trigger] bears(
                        credit,
                        seal,
                        self.destination(),
                    ) && accepted_events(
                        seq![self.event(), credit],
                        self.run(),
                        self.state_type(),
                        self.current(),
                        self.destination(),
                        self.authority(),
                    )
            },
    {
        proof {
            use_type_invariant(&self);
        }
        let AwaitDestinationSeal {
            run,
            state_type,
            current,
            authority,
            event,
            destination,
            before,
            after,
        } = self;
        let event_authority = copy_authority(&authority);
        let credit = match seal_event(
            run,
            state_type,
            &destination,
            event_authority,
            before,
            after,
            seal,
        ) {
            Ok(credit) => credit,
            Err(error) => {
                return Step::Done(Err(error));
            },
        };
        let ghost pair = seq![event, credit];
        let mut events: Vec<Event> = Vec::new();
        events.push(event);
        events.push(credit);
        assert(events@ =~= pair);
        let step = finish(
            run,
            events,
            Ghost(state_type),
            Ghost(current),
            Ghost(destination),
            Ghost(authority),
        );
        assert(after_events(step, run, pair));
        step
    }
}

/// Waits for the claim of the intent id, with the finished events in hand.
pub struct AwaitClaim<'a> {
    run: Run<'a>,
    events: Vec<Event>,
    state_type: Ghost<StateType>,
    current: Ghost<Option<StateProjection>>,
    destination: Ghost<Option<StateProjection>>,
    authority: Ghost<Option<AuthorityProof>>,
}

impl<'a> AwaitClaim<'a> {
    #[verifier::type_invariant]
    spec fn passed(self) -> bool {
        accepted_events(
            self.events@,
            self.run,
            self.state_type@,
            self.current@,
            self.destination@,
            self.authority@,
        )
    }

    /// What the execution works on.
    pub closed spec fn run(self) -> Run<'a> {
        self.run
    }

    /// The finished events.
    pub closed spec fn events(self) -> Seq<Event> {
        self.events@
    }

    /// Hands the events out once the claim succeeded.
    pub fn resume(self, claimed: Result<(), IntentStoreError>) -> (r: Step<'a>)
        ensures
            match claimed {
                Ok(()) => match r {
                    Step::Done(Ok(events)) => events@ == self.events() && exists|
                        state_type: StateType,
                        current: Option<StateProjection>,
                        destination: Option<StateProjection>,
                        authority: Option<AuthorityProof>,
                    |
                        accepted_events(
                            self.events(),
                            self.run(),
                            state_type,
                            current,
                            destination,
                            authority,
                        ),
                    _ => false,
                },
                Err(failure) => r is Done && r->Done_0 is Err && intent_store_report(
                    r->Done_0->Err_0,
                    failure,
                    self.run().intent.intent_id.0@,
                ),
            },
    {
        proof {
            use_type_invariant(&self);
            assert(accepted_events(
                self.events(),
                self.run(),
                self.state_type@,
                self.current@,
                self.destination@,
                self.authority@,
            ));
        }
        match claimed {
            Ok(()) => Step::Done(Ok(self.events)),
            Err(failure) => Step::Done(
                Err(map_intent_store_error(failure, self.run.intent.intent_id.as_str())),
            ),
        }
    }
}

/// Only executions whose every gate is open end with events, and each event
/// advances its resource by exactly one version.
pub proof fn law_versions_advance_by_one(
    events: Seq<Event>,
    run: Run,
    state_type: StateType,
    current: Option<StateProjection>,
    destination: Option<StateProjection>,
    authority: Option<AuthorityProof>,
)
    requires
        accepted_events(events, run, state_type, current, destination, authority),
    ensures
        version_expected(*run.intent, by_ref(current)),
        events[0].before.version == run.intent.expected_version,
        forall|i: int|
            0 <= i < events.len() ==> (#[trigger] events[i]).after.version
                == events[i].before.version + 1,
{
}

} // verus!
