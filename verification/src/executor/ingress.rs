//! The way in for authenticated callers.
//!
//! A mutation that comes from outside runs only after its caller has been
//! checked. On a player's route the intent must be signed, and the signing key
//! registered where a key registry is installed; on every route the principal
//! must be the intent's actor in the intent's tenant, and the policy must
//! allow the mutation. On a durable route the events reach the caller only
//! after the sink has stored them.
use vstd::prelude::*;

use crate::domain::digest::SignatureBlock;
use crate::domain::event::Event;
use crate::domain::ids::{KeyId, Operation, SubjectId, TenantId};
use crate::domain::intent::Intent;
use crate::domain::time::Timestamp;
use crate::executor::batch::{begin_batch, begun, BatchItem, BatchKind, BatchStep};
use crate::executor::error::{ExecutorBuildError, ExecutorError, PortsBuildError};
use crate::ports::authorization::{
    authorization_context, AuthenticatedPrincipal, AuthorizationContext,
};
use crate::ports::errors::AuthorizationError;
use crate::ports::key_registry::KeyRegistryError;

verus! {

// ---------------------------------------------------------------------------
// The composition of an executor.
// ---------------------------------------------------------------------------
/// Checks that the required ports are there and names the first missing one.
pub fn check_ports(
    intent_store: bool,
    state_index: bool,
    tenant_store: bool,
    transaction_manager: bool,
) -> (r: Result<(), PortsBuildError>)
    ensures
        r == if !intent_store {
            Err::<(), PortsBuildError>(PortsBuildError::MissingIntentStore)
        } else if !state_index {
            Err(PortsBuildError::MissingStateIndex)
        } else if !tenant_store {
            Err(PortsBuildError::MissingTenantStore)
        } else if !transaction_manager {
            Err(PortsBuildError::MissingTransactionManager)
        } else {
            Ok(())
        },
{
    if !intent_store {
        Err(PortsBuildError::MissingIntentStore)
    } else if !state_index {
        Err(PortsBuildError::MissingStateIndex)
    } else if !tenant_store {
        Err(PortsBuildError::MissingTenantStore)
    } else if !transaction_manager {
        Err(PortsBuildError::MissingTransactionManager)
    } else {
        Ok(())
    }
}

/// Checks that the required components are there and names the first missing
/// one.
pub fn check_components(
    ports: bool,
    executor: bool,
    clock: bool,
    event_id_gen: bool,
    intent_verifier: bool,
) -> (r: Result<(), ExecutorBuildError>)
    ensures
        r == if !ports {
            Err::<(), ExecutorBuildError>(ExecutorBuildError::MissingPorts)
        } else if !executor {
            Err(ExecutorBuildError::MissingExecutor)
        } else if !clock {
            Err(ExecutorBuildError::MissingClock)
        } else if !event_id_gen {
            Err(ExecutorBuildError::MissingEventIdGen)
        } else if !intent_verifier {
            Err(ExecutorBuildError::MissingIntentVerifier)
        } else {
            Ok(())
        },
{
    if !ports {
        Err(ExecutorBuildError::MissingPorts)
    } else if !executor {
        Err(ExecutorBuildError::MissingExecutor)
    } else if !clock {
        Err(ExecutorBuildError::MissingClock)
    } else if !event_id_gen {
        Err(ExecutorBuildError::MissingEventIdGen)
    } else if !intent_verifier {
        Err(ExecutorBuildError::MissingIntentVerifier)
    } else {
        Ok(())
    }
}

// ---------------------------------------------------------------------------
// One mutation.
// ---------------------------------------------------------------------------
/// The ways in.
#[derive(Debug, Clone, Copy, PartialEq, Eq, Structural)]
pub enum Route {
    /// A trusted service with its own authentication.
    Authenticated,
    /// A player.
    Player,
    /// A player, with a durable sink.
    PlayerDurable,
    /// A player, with a key registry.
    PlayerKeyed,
    /// A player, with a key registry and a durable sink.
    PlayerDurableKeyed,
}

impl Route {
    /// Whether the intent must be signed.
    pub open spec fn signed(self) -> bool {
        self != Route::Authenticated
    }

    /// Whether the signing key must be registered.
    pub open spec fn keyed(self) -> bool {
        self == Route::PlayerKeyed || self == Route::PlayerDurableKeyed
    }

    /// Whether the events go to a durable sink.
    pub open spec fn durable(self) -> bool {
        self == Route::PlayerDurable || self == Route::PlayerDurableKeyed
    }

    fn is_signed(&self) -> (r: bool)
        ensures
            r == self.signed(),
    {
        match self {
            Route::Authenticated => false,
            _ => true,
        }
    }

    fn is_keyed(&self) -> (r: bool)
        ensures
            r == self.keyed(),
    {
        match self {
            Route::PlayerKeyed | Route::PlayerDurableKeyed => true,
            _ => false,
        }
    }

    fn is_durable(&self) -> (r: bool)
        ensures
            r == self.durable(),
    {
        match self {
            Route::PlayerDurable | Route::PlayerDurableKeyed => true,
            _ => false,
        }
    }
}

/// A mutation and its caller.
#[derive(Clone, Copy)]
pub struct Ingress<'a> {
    /// The route.
    pub route: Route,
    /// The intent.
    pub intent: &'a Intent,
    /// The detached signature over the intent, if any.
    pub signature: Option<&'a SignatureBlock>,
    /// The authenticated principal.
    pub principal: &'a AuthenticatedPrincipal,
}

/// Where a mutation stands: paused for outside work, or done.
pub enum IngressStep<'a> {
    /// Needs the signing key resolved.
    ResolveKey(AwaitKey<'a>),
    /// Needs the policy's decision.
    Authorize(AwaitPolicy<'a>),
    /// Needs the execution of the intent.
    Execute(AwaitExecution<'a>),
    /// Needs the events stored by the durable sink.
    Persist(AwaitStored<'a>),
    /// Finished: the events, none for a replay, or the first failed check.
    Done(Result<Vec<Event>, ExecutorError>),
}

/// Whether a mutation may run as far as its caller is concerned.
pub open spec fn admissible(run: Ingress) -> bool {
    (run.route.signed() ==> run.signature is Some) && run.principal.bound_to(*run.intent)
}

/// Whether a result rejects the caller for the given reason.
pub open spec fn caller_rejected<T>(r: Result<T, ExecutorError>, reason: Seq<char>) -> bool {
    match r {
        Err(ExecutorError::ActorAuthenticationFailed(message)) => message@ == reason,
        _ => false,
    }
}

/// Whether a step follows the checks of signature and key: the policy is
/// asked of a bound principal, and any other principal is rejected.
pub open spec fn after_keys(r: IngressStep, run: Ingress) -> bool {
    if run.principal.bound_to(*run.intent) {
        r matches IngressStep::Authorize(next) && next.run() == run
    } else {
        r matches IngressStep::Done(done) && caller_rejected(
            done,
            "authenticated principal is not bound to intent actor and tenant"@,
        )
    }
}

/// What a key registry is asked of an intent's signature.
#[derive(Clone, Copy)]
pub struct KeyQuery<'a> {
    /// The intent's tenant.
    pub tenant: &'a TenantId,
    /// The principal's subject.
    pub subject: &'a SubjectId,
    /// The signing key.
    pub key_id: &'a KeyId,
    /// The intent's operation.
    pub operation: &'a Operation,
    /// When the intent was created.
    pub at: Timestamp,
}

/// Whether a query asks for the key that signed an intent for a principal.
pub open spec fn asks_for(
    query: KeyQuery,
    intent: Intent,
    principal: AuthenticatedPrincipal,
    signature: SignatureBlock,
) -> bool {
    *query.tenant == intent.tenant_id && *query.subject == principal.subject && *query.key_id
        == signature.key_id && *query.operation == intent.operation && query.at
        == intent.created_at
}

fn key_query<'a>(
    intent: &'a Intent,
    principal: &'a AuthenticatedPrincipal,
    signature: &'a SignatureBlock,
) -> (r: KeyQuery<'a>)
    ensures
        asks_for(r, *intent, *principal, *signature),
{
    KeyQuery {
        tenant: &intent.tenant_id,
        subject: &principal.subject,
        key_id: &signature.key_id,
        operation: &intent.operation,
        at: intent.created_at,
    }
}

fn unbound() -> (r: ExecutorError)
    ensures
        r is ActorAuthenticationFailed,
        r->ActorAuthenticationFailed_0@
            == "authenticated principal is not bound to intent actor and tenant"@,
{
    ExecutorError::ActorAuthenticationFailed(
        "authenticated principal is not bound to intent actor and tenant".to_owned(),
    )
}

fn unsigned() -> (r: ExecutorError)
    ensures
        r is ActorAuthenticationFailed,
        r->ActorAuthenticationFailed_0@ == "player mutation requires a detached intent signature"@,
{
    ExecutorError::ActorAuthenticationFailed(
        "player mutation requires a detached intent signature".to_owned(),
    )
}

fn bind_principal<'a>(run: Ingress<'a>) -> (r: IngressStep<'a>)
    requires
        run.route.signed() ==> run.signature is Some,
    ensures
        after_keys(r, run),
{
    if run.principal.is_bound_to(run.intent) {
        IngressStep::Authorize(AwaitPolicy { run })
    } else {
        IngressStep::Done(Err(unbound()))
    }
}

/// Lets a mutation in as far as its signature.
pub fn enter<'a>(run: Ingress<'a>) -> (r: IngressStep<'a>)
    ensures
        if run.route.signed() && run.signature is None {
            r matches IngressStep::Done(done) && caller_rejected(
                done,
                "player mutation requires a detached intent signature"@,
            )
        } else if run.route.keyed() {
            r matches IngressStep::ResolveKey(next) && next.run() == run
        } else {
            after_keys(r, run)
        },
{
    if run.route.is_signed() && run.signature.is_none() {
        return IngressStep::Done(Err(unsigned()));
    }
    if run.route.is_keyed() {
        return IngressStep::ResolveKey(AwaitKey { run });
    }
    bind_principal(run)
}

/// Waits for the signing key.
pub struct AwaitKey<'a> {
    run: Ingress<'a>,
}

impl<'a> AwaitKey<'a> {
    #[verifier::type_invariant]
    spec fn signed(self) -> bool {
        self.run.signature is Some
    }

    /// The mutation.
    pub closed spec fn run(self) -> Ingress<'a> {
        self.run
    }

    /// What the registry is asked.
    pub fn query(&self) -> (r: KeyQuery<'a>)
        ensures
            self.run().signature is Some,
            asks_for(
                r,
                *self.run().intent,
                *self.run().principal,
                *self.run().signature->0,
            ),
    {
        proof {
            use_type_invariant(&self);
        }
        key_query(self.run.intent, self.run.principal, self.run.signature.unwrap())
    }

    /// Continues with the registry's answer: a key that is not trusted for
    /// this intent rejects the caller.
    pub fn resume(self, resolved: Result<(), KeyRegistryError>) -> (r: IngressStep<'a>)
        ensures
            match resolved {
                Err(failure) => r matches IngressStep::Done(done) && caller_rejected(
                    done,
                    failure.text(),
                ),
                Ok(_) => after_keys(r, self.run()),
            },
    {
        proof {
            use_type_invariant(&self);
        }
        match resolved {
            Err(failure) => IngressStep::Done(
                Err(ExecutorError::ActorAuthenticationFailed(failure.message())),
            ),
            Ok(_) => bind_principal(self.run),
        }
    }
}

/// Waits for the policy.
pub struct AwaitPolicy<'a> {
    run: Ingress<'a>,
}

impl<'a> AwaitPolicy<'a> {
    #[verifier::type_invariant]
    spec fn bound(self) -> bool {
        admissible(self.run)
    }

    /// The mutation.
    pub closed spec fn run(self) -> Ingress<'a> {
        self.run
    }

    /// What the policy decides on.
    pub fn context(&self) -> (r: AuthorizationContext<'a>)
        ensures
            *r.principal == *self.run().principal,
            *r.tenant == self.run().intent.tenant_id,
            *r.intent == *self.run().intent,
            *r.resource == self.run().intent.resource_id,
    {
        authorization_context(self.run.principal, self.run.intent)
    }

    /// Continues with the decision: only an allowed mutation is executed.
    pub fn resume(self, decision: Result<(), AuthorizationError>) -> (r: IngressStep<'a>)
        ensures
            match decision {
                Err(failure) => r matches IngressStep::Done(done) && caller_rejected(
                    done,
                    failure.text(),
                ),
                Ok(_) => r matches IngressStep::Execute(next) && next.run() == self.run()
                    && admissible(next.run()),
            },
    {
        proof {
            use_type_invariant(&self);
        }
        match decision {
            Err(failure) => IngressStep::Done(
                Err(ExecutorError::ActorAuthenticationFailed(failure.message())),
            ),
            Ok(_) => IngressStep::Execute(AwaitExecution { run: self.run }),
        }
    }
}

/// Waits for the execution.
pub struct AwaitExecution<'a> {
    run: Ingress<'a>,
}

impl<'a> AwaitExecution<'a> {
    #[verifier::type_invariant]
    spec fn bound(self) -> bool {
        admissible(self.run)
    }

    /// The mutation.
    pub closed spec fn run(self) -> Ingress<'a> {
        self.run
    }

    /// Whether the execution claims the intent id itself; on a durable route
    /// the sink does.
    pub fn persist_intent(&self) -> (r: bool)
        ensures
            r == !self.run().route.durable(),
    {
        !self.run.route.is_durable()
    }

    /// Continues with the outcome. On a durable route new events are stored
    /// first; a replay has none.
    pub fn resume(self, outcome: Result<Vec<Event>, ExecutorError>) -> (r: IngressStep<'a>)
        ensures
            match outcome {
                Ok(events) => if self.run().route.durable() && events@.len() > 0 {
                    r matches IngressStep::Persist(next) && next.run() == self.run()
                        && next.stored() == events@
                } else {
                    r matches IngressStep::Done(Ok(returned)) && returned == events
                },
                Err(failure) => r matches IngressStep::Done(Err(returned)) && returned == failure,
            },
    {
        match outcome {
            Ok(events) => if self.run.route.is_durable() && events.len() > 0 {
                IngressStep::Persist(AwaitStored { run: self.run, events })
            } else {
                IngressStep::Done(Ok(events))
            },
            Err(failure) => IngressStep::Done(Err(failure)),
        }
    }
}

/// Waits for the durable sink.
pub struct AwaitStored<'a> {
    run: Ingress<'a>,
    events: Vec<Event>,
}

impl<'a> AwaitStored<'a> {
    /// The mutation.
    pub closed spec fn run(self) -> Ingress<'a> {
        self.run
    }

    /// The events to store.
    pub closed spec fn stored(self) -> Seq<Event> {
        self.events@
    }

    /// The events to store.
    pub fn events(&self) -> (r: &Vec<Event>)
        ensures
            r@ == self.stored(),
    {
        &self.events
    }

    /// Continues with the sink's answer: events are returned only when they
    /// have been stored.
    pub fn resume(self, persisted: Result<(), String>) -> (r: IngressStep<'a>)
        ensures
            match persisted {
                Ok(_) => r matches IngressStep::Done(Ok(returned)) && returned@ == self.stored(),
                Err(failure) => r matches IngressStep::Done(Err(ExecutorError::Store(message)))
                    && message == failure,
            },
    {
        match persisted {
            Ok(_) => IngressStep::Done(Ok(self.events)),
            Err(failure) => IngressStep::Done(Err(ExecutorError::Store(failure))),
        }
    }
}

// ---------------------------------------------------------------------------
// A player's batch.
// ---------------------------------------------------------------------------
/// One intent of a player's batch, next to the principal who submits it.
#[derive(Clone, Copy)]
pub struct PlayerBatchItem<'item> {
    /// The intent.
    pub intent: &'item Intent,
    /// The detached signature over the intent, if any.
    pub signature: Option<&'item SignatureBlock>,
    /// The principal who submits this very intent.
    pub principal: &'item AuthenticatedPrincipal,
}

/// Where the admission of a batch stands.
pub enum AdmissionStep<'a> {
    /// Needs the policy's decision on an item.
    Authorize(AwaitItemPolicy<'a>),
    /// Needs an item's signing key resolved.
    ResolveKey(AwaitItemKey<'a>),
    /// Every item is admitted; the batch begins.
    Admitted(BatchStep),
    /// An item is rejected, and the batch with it.
    Rejected(ExecutorError),
}

/// Whether an item's caller passes the checks that need nothing from outside.
pub open spec fn item_admissible(item: PlayerBatchItem) -> bool {
    item.signature is Some && item.principal.bound_to(*item.intent)
}

/// What a batch knows of players' intents.
pub open spec fn batch_items(items: Seq<PlayerBatchItem>) -> Seq<BatchItem> {
    Seq::new(
        items.len(),
        |i: int|
            BatchItem { tenant: items[i].intent.tenant_id, intent_id: items[i].intent.intent_id },
    )
}

/// Whether a step is the check of the item at a position, all earlier ones
/// having been admitted; past the last item the durable batch begins.
pub open spec fn checks_item(r: AdmissionStep, items: Seq<PlayerBatchItem>, at: int) -> bool {
    if at >= items.len() {
        r matches AdmissionStep::Admitted(step) && begun(
            step,
            BatchKind::Batch,
            true,
            batch_items(items),
        )
    } else if items[at].signature is None {
        r matches AdmissionStep::Rejected(ExecutorError::ActorAuthenticationFailed(message))
            && message@ == "player mutation requires a detached intent signature"@
    } else if !items[at].principal.bound_to(*items[at].intent) {
        r matches AdmissionStep::Rejected(ExecutorError::ActorAuthenticationFailed(message))
            && message@ == "authenticated principal is not bound to intent actor and tenant"@
    } else {
        r matches AdmissionStep::Authorize(next) && next.items() == items && next.at() == at
    }
}

fn check_item<'a>(items: Vec<PlayerBatchItem<'a>>, at: usize) -> (r: AdmissionStep<'a>)
    requires
        at <= items@.len(),
        forall|k: int| 0 <= k < at ==> item_admissible(#[trigger] items@[k]),
    ensures
        checks_item(r, items@, at as int),
{
    if at >= items.len() {
        let mut batch: Vec<BatchItem> = Vec::new();
        let mut i: usize = 0;
        while i < items.len()
            invariant
                i <= items@.len(),
                batch@ == batch_items(items@).take(i as int),
            decreases items@.len() - i,
        {
            batch.push(
                BatchItem {
                    tenant: items[i].intent.tenant_id.clone(),
                    intent_id: items[i].intent.intent_id.clone(),
                },
            );
            assert(batch_items(items@).take(i + 1) =~= batch_items(items@).take(i as int).push(
                batch_items(items@)[i as int],
            ));
            i = i + 1;
        }
        assert(batch_items(items@).take(i as int) =~= batch_items(items@));
        return AdmissionStep::Admitted(begin_batch(BatchKind::Batch, true, batch));
    }
    if items[at].signature.is_none() {
        return AdmissionStep::Rejected(unsigned());
    }
    if !items[at].principal.is_bound_to(items[at].intent) {
        return AdmissionStep::Rejected(unbound());
    }
    AdmissionStep::Authorize(AwaitItemPolicy { items, at })
}

/// Begins the admission of a player's batch. The whole batch is rejected when
/// any of its items is, before anything is executed.
pub fn enter_batch<'a>(items: Vec<PlayerBatchItem<'a>>) -> (r: AdmissionStep<'a>)
    ensures
        checks_item(r, items@, 0),
{
    check_item(items, 0)
}

/// Waits for the policy's decision on an item.
pub struct AwaitItemPolicy<'a> {
    items: Vec<PlayerBatchItem<'a>>,
    at: usize,
}

impl<'a> AwaitItemPolicy<'a> {
    #[verifier::type_invariant]
    spec fn within(self) -> bool {
        self.at < self.items@.len() && forall|k: int|
            0 <= k <= self.at ==> item_admissible(#[trigger] self.items@[k])
    }

    /// The batch.
    pub closed spec fn items(self) -> Seq<PlayerBatchItem<'a>> {
        self.items@
    }

    /// The position of the item.
    pub closed spec fn at(self) -> int {
        self.at as int
    }

    /// What the policy decides on.
    pub fn context(&self) -> (r: AuthorizationContext<'a>)
        ensures
            0 <= self.at() < self.items().len(),
            *r.principal == *self.items()[self.at()].principal,
            *r.tenant == self.items()[self.at()].intent.tenant_id,
            *r.intent == *self.items()[self.at()].intent,
            *r.resource == self.items()[self.at()].intent.resource_id,
    {
        proof {
            use_type_invariant(&self);
        }
        authorization_context(self.items[self.at].principal, self.items[self.at].intent)
    }

    /// Continues with the decision.
    pub fn resume(self, decision: Result<(), AuthorizationError>) -> (r: AdmissionStep<'a>)
        ensures
            match decision {
                Err(failure) => r matches AdmissionStep::Rejected(
                    ExecutorError::ActorAuthenticationFailed(message),
                ) && message@ == failure.text(),
                Ok(_) => r matches AdmissionStep::ResolveKey(next) && next.items() == self.items()
                    && next.at() == self.at(),
            },
    {
        proof {
            use_type_invariant(&self);
        }
        match decision {
            Err(failure) => AdmissionStep::Rejected(
                ExecutorError::ActorAuthenticationFailed(failure.message()),
            ),
            Ok(_) => AdmissionStep::ResolveKey(AwaitItemKey { items: self.items, at: self.at }),
        }
    }
}

/// Waits for an item's signing key.
pub struct AwaitItemKey<'a> {
    items: Vec<PlayerBatchItem<'a>>,
    at: usize,
}

impl<'a> AwaitItemKey<'a> {
    #[verifier::type_invariant]
    spec fn within(self) -> bool {
        self.at < self.items@.len() && forall|k: int|
            0 <= k <= self.at ==> item_admissible(#[trigger] self.items@[k])
    }

    /// The batch.
    pub closed spec fn items(self) -> Seq<PlayerBatchItem<'a>> {
        self.items@
    }

    /// The position of the item.
    pub closed spec fn at(self) -> int {
        self.at as int
    }

    /// What the registry is asked.
    pub fn query(&self) -> (r: KeyQuery<'a>)
        ensures
            0 <= self.at() < self.items().len(),
            self.items()[self.at()].signature is Some,
            asks_for(
                r,
                *self.items()[self.at()].intent,
                *self.items()[self.at()].principal,
                *self.items()[self.at()].signature->0,
            ),
    {
        proof {
            use_type_invariant(&self);
            assert(item_admissible(self.items@[self.at as int]));
        }
        let item = self.items[self.at];
        key_query(item.intent, item.principal, item.signature.unwrap())
    }

    /// Continues with the registry's answer: the next item, or, after the
    /// last, the batch.
    pub fn resume(self, resolved: Result<(), KeyRegistryError>) -> (r: AdmissionStep<'a>)
        ensures
            match resolved {
                Err(failure) => r matches AdmissionStep::Rejected(
                    ExecutorError::ActorAuthenticationFailed(message),
                ) && message@ == failure.text(),
                Ok(_) => checks_item(r, self.items(), self.at() + 1),
            },
    {
        proof {
            use_type_invariant(&self);
        }
        match resolved {
            Err(failure) => AdmissionStep::Rejected(
                ExecutorError::ActorAuthenticationFailed(failure.message()),
            ),
            Ok(_) => {
                assert(self.at < self.items.len());
                check_item(self.items, self.at + 1)
            },
        }
    }
}

} // verus!
