//! Batches: several intents that commit together or not at all.
//!
//! A batch runs its intents one by one, checks that the resulting events fit
//! together, and then either commits a planned transaction or hands the events
//! to a durable sink. A failing intent, or events that do not fit, roll the
//! transaction back and surface as one atomicity error; a failing sink or
//! coordinator surfaces as a store error. As in an execution, each pause for
//! outside work is a type of its own.
use vstd::prelude::*;

use crate::domain::event::Event;
use crate::domain::ids::{IntentId, TenantId};
use crate::domain::intent::Intent;
use crate::executor::atomicity::{
    batch_sound, cross_tenant_fault, cross_tenant_sound, first_fault,
    law_sound_batches_have_no_fault, law_sound_transactions_have_no_fault, reports, unlinked,
    unlinked_fault, validate_batch_consistency, validate_cross_tenant_consistency, Fault,
    TenantEventGroup,
};
use crate::executor::error::ExecutorError;
use crate::executor::pipeline::{map_transaction_manager_error, store_report};
use crate::intent::validated::ValidatedIntent;
use crate::ports::errors::TransactionManagerError;
use crate::text::{increasing, insert_sorted, join3, same_text, texts};

verus! {

/// The kinds of batch.
#[derive(Debug, Clone, Copy, PartialEq, Eq, Structural)]
pub enum BatchKind {
    /// Intents of one tenant.
    Batch,
    /// A settlement with its value legs, of one tenant.
    Settle,
    /// Intents of several tenants, tied together by a shared intent id.
    CrossTenant,
    /// A trade across tenants, tied together by a declared manifest.
    CrossTenantTrade,
}

impl BatchKind {
    /// Whether the kind spans tenants.
    pub open spec fn spans(self) -> bool {
        self == BatchKind::CrossTenant || self == BatchKind::CrossTenantTrade
    }

    /// Whether settlements may declare value legs in this kind of batch.
    pub open spec fn admits_value_legs(self) -> bool {
        self == BatchKind::Settle || self == BatchKind::CrossTenantTrade
    }

    fn is_spanning(&self) -> (r: bool)
        ensures
            r == self.spans(),
    {
        match self {
            BatchKind::CrossTenant | BatchKind::CrossTenantTrade => true,
            BatchKind::Batch | BatchKind::Settle => false,
        }
    }
}

/// What a batch needs to know of an intent.
#[derive(Debug, PartialEq, Eq)]
pub struct BatchItem {
    /// The tenant scope.
    pub tenant: TenantId,
    /// The intent id.
    pub intent_id: IntentId,
}

/// The part of a batch that runs under one tenant.
#[derive(Debug, PartialEq, Eq)]
pub struct Leg {
    /// The tenant.
    pub tenant: TenantId,
    /// The positions of its intents, in input order.
    pub members: Vec<usize>,
}

/// The positions of a tenant's intents, in order.
pub open spec fn members_of_tenant(items: Seq<BatchItem>, tenant: Seq<char>) -> Seq<usize>
    decreases items.len(),
{
    if items.len() == 0 {
        Seq::empty()
    } else {
        let rest = members_of_tenant(items.drop_last(), tenant);
        if items.last().tenant.0@ == tenant {
            rest.push((items.len() - 1) as usize)
        } else {
            rest
        }
    }
}

/// The tenants of legs.
pub open spec fn leg_tenants(legs: Seq<Leg>) -> Seq<Seq<char>> {
    legs.map_values(|leg: Leg| leg.tenant.0@)
}

/// Whether legs partition items by tenant: one leg per tenant, in text order,
/// each with all its intents in input order.
pub open spec fn partitions(legs: Seq<Leg>, items: Seq<BatchItem>) -> bool {
    &&& increasing(leg_tenants(legs))
    &&& forall|t: Seq<char>|
        #[trigger] leg_tenants(legs).contains(t) <==> exists|i: int|
            0 <= i < items.len() && (#[trigger] items[i]).tenant.0@ == t
    &&& forall|k: int|
        0 <= k < legs.len() ==> (#[trigger] legs[k]).members@ == members_of_tenant(
            items,
            legs[k].tenant.0@,
        )
}

/// Whether there is exactly one leg, which runs every item in order.
pub open spec fn single_leg(legs: Seq<Leg>, items: Seq<BatchItem>) -> bool {
    legs.len() == 1 && items.len() > 0 && legs[0].tenant == items[0].tenant
        && legs[0].members@.len() == items.len() && forall|i: int|
        0 <= i < items.len() ==> #[trigger] legs[0].members@[i] == i
}

/// Whether legs are the ones that a kind of batch runs.
pub open spec fn legs_for(kind: BatchKind, legs: Seq<Leg>, items: Seq<BatchItem>) -> bool {
    if kind.spans() {
        partitions(legs, items) && legs.len() >= 2
    } else {
        single_leg(legs, items)
    }
}

/// Why a kind of batch cannot start on the given items, if so.
pub open spec fn start_complaint(kind: BatchKind) -> Seq<char> {
    match kind {
        BatchKind::Batch => "empty batch"@,
        BatchKind::Settle => "empty settle batch"@,
        BatchKind::CrossTenant => "cross-tenant batch requires at least two distinct tenants"@,
        BatchKind::CrossTenantTrade => "cross-tenant trade requires at least two distinct tenants"@,
    }
}

/// Whether items span at least two tenants.
pub open spec fn two_tenants(items: Seq<BatchItem>) -> bool {
    exists|i: int, j: int|
        0 <= i < items.len() && 0 <= j < items.len() && (#[trigger] items[i]).tenant.0@ != (
        #[trigger] items[j]).tenant.0@
}

/// Whether a kind of batch can start on the given items.
pub open spec fn startable(kind: BatchKind, items: Seq<BatchItem>) -> bool {
    if kind.spans() {
        two_tenants(items)
    } else {
        items.len() > 0
    }
}

/// Whether the events of a finished batch fit together, as far as the kind's
/// own rules say. A leg without events has only replays: nothing ties it to
/// the other legs of its transaction.
pub open spec fn outcome_sound(kind: BatchKind, groups: Seq<TenantEventGroup>) -> bool {
    match kind {
        BatchKind::Batch | BatchKind::Settle => groups.len() == 1 && batch_sound(
            groups[0].events@,
        ),
        BatchKind::CrossTenant => cross_tenant_sound(groups) && none_empty(groups),
        BatchKind::CrossTenantTrade => true,
    }
}

/// Whether an error reports why the events of a batch do not fit together.
pub open spec fn outcome_report(
    error: ExecutorError,
    kind: BatchKind,
    groups: Seq<TenantEventGroup>,
) -> bool {
    match kind {
        BatchKind::Batch | BatchKind::Settle => exists|fault: Fault| #[trigger]
            reports(error, fault) && first_fault(groups[0].events@, fault),
        BatchKind::CrossTenant => exists|fault: Fault| #[trigger]
            reports(error, fault) && (cross_tenant_fault(groups, fault) || (cross_tenant_sound(
                groups,
            ) && !none_empty(groups) && fault == unlinked_fault())),
        BatchKind::CrossTenantTrade => false,
    }
}

/// Whether every group has events.
pub open spec fn none_empty(groups: Seq<TenantEventGroup>) -> bool {
    forall|g: int| 0 <= g < groups.len() ==> (#[trigger] groups[g]).events@.len() > 0
}

/// Whether all groups are empty.
pub open spec fn all_empty(groups: Seq<TenantEventGroup>) -> bool {
    forall|g: int| 0 <= g < groups.len() ==> (#[trigger] groups[g]).events@.len() == 0
}

// ---------------------------------------------------------------------------
// Partition.
// ---------------------------------------------------------------------------
fn positions_of(items: &Vec<BatchItem>, tenant: &str) -> (r: Vec<usize>)
    ensures
        r@ == members_of_tenant(items@, tenant@),
{
    let mut found: Vec<usize> = Vec::new();
    let mut i: usize = 0;
    while i < items.len()
        invariant
            i <= items@.len(),
            found@ == members_of_tenant(items@.take(i as int), tenant@),
        decreases items@.len() - i,
    {
        assert(items@.take(i + 1).drop_last() =~= items@.take(i as int));
        assert(items@.take(i + 1).last() == items@[i as int]);
        if same_text(items[i].tenant.as_str(), tenant) {
            found.push(i);
        }
        i = i + 1;
    }
    assert(items@.take(i as int) =~= items@);
    found
}

/// Groups items by tenant: tenants in text order, intents in input order.
pub fn partition(items: &Vec<BatchItem>) -> (r: Vec<Leg>)
    ensures
        partitions(r@, items@),
{
    let mut names: Vec<String> = Vec::new();
    let mut i: usize = 0;
    while i < items.len()
        invariant
            i <= items@.len(),
            increasing(texts(names@)),
            forall|t: Seq<char>|
                #[trigger] texts(names@).contains(t) <==> exists|k: int|
                    0 <= k < i && (#[trigger] items@[k]).tenant.0@ == t,
        decreases items@.len() - i,
    {
        let ghost before = texts(names@);
        insert_sorted(&mut names, items[i].tenant.as_str());
        proof {
            assert forall|t: Seq<char>| #[trigger] texts(names@).contains(t) <==> exists|k: int|
                0 <= k < i + 1 && (#[trigger] items@[k]).tenant.0@ == t by {
                assert(texts(names@).contains(t) <==> before.contains(t) || t
                    == items@[i as int].tenant.0@);
                if t == items@[i as int].tenant.0@ {
                    assert(items@[i as int].tenant.0@ == t);
                }
            }
        }
        i = i + 1;
    }
    let mut legs: Vec<Leg> = Vec::new();
    let mut j: usize = 0;
    while j < names.len()
        invariant
            j <= names@.len(),
            legs@.len() == j,
            forall|k: int|
                0 <= k < j ==> (#[trigger] legs@[k]).tenant.0@ == texts(names@)[k]
                    && legs@[k].members@ == members_of_tenant(items@, legs@[k].tenant.0@),
        decreases names@.len() - j,
    {
        let members = positions_of(items, names[j].as_str());
        legs.push(Leg { tenant: TenantId(names[j].clone()), members });
        j = j + 1;
    }
    assert(leg_tenants(legs@) =~= texts(names@));
    legs
}

/// A tenant with an intent has a member in its leg.
proof fn lemma_members(items: Seq<BatchItem>, tenant: Seq<char>)
    requires
        items.len() <= usize::MAX,
    ensures
        forall|k: int|
            0 <= k < members_of_tenant(items, tenant).len() ==> (#[trigger] members_of_tenant(
                items,
                tenant,
            )[k]) < items.len(),
        (exists|i: int| 0 <= i < items.len() && (#[trigger] items[i]).tenant.0@ == tenant)
            ==> members_of_tenant(items, tenant).len() > 0,
    decreases items.len(),
{
    if items.len() > 0 {
        let rest = items.drop_last();
        lemma_members(rest, tenant);
        if exists|i: int| 0 <= i < items.len() && (#[trigger] items[i]).tenant.0@ == tenant {
            let i = choose|i: int| 0 <= i < items.len() && (#[trigger] items[i]).tenant.0@ == tenant;
            if i < rest.len() {
                assert(rest[i].tenant.0@ == tenant);
            }
        }
    }
}

/// The legs of a partition are not empty and point at items.
proof fn lemma_legs_filled(legs: Seq<Leg>, items: Seq<BatchItem>)
    requires
        partitions(legs, items),
        items.len() <= usize::MAX,
    ensures
        legs_filled(legs, items.len()),
{
    assert forall|k: int| 0 <= k < legs.len() implies (#[trigger] legs[k]).members@.len() > 0 && (
    forall|m: int|
        0 <= m < legs[k].members@.len() ==> #[trigger] legs[k].members@[m] < items.len()) by {
        let t = legs[k].tenant.0@;
        assert(leg_tenants(legs)[k] == t);
        assert(leg_tenants(legs).contains(t));
        lemma_members(items, t);
    }
}

/// A partition has two legs exactly when its items span two tenants.
proof fn lemma_two_legs(legs: Seq<Leg>, items: Seq<BatchItem>)
    requires
        partitions(legs, items),
    ensures
        legs.len() >= 2 <==> two_tenants(items),
{
    let names = leg_tenants(legs);
    if two_tenants(items) {
        let (i, j) = choose|i: int, j: int|
            0 <= i < items.len() && 0 <= j < items.len() && (#[trigger] items[i]).tenant.0@ != (
            #[trigger] items[j]).tenant.0@;
        assert(names.contains(items[i].tenant.0@));
        assert(names.contains(items[j].tenant.0@));
    }
    if legs.len() >= 2 {
        assert(names.contains(names[0]));
        assert(names.contains(names[1]));
        let i = choose|i: int| 0 <= i < items.len() && (#[trigger] items[i]).tenant.0@ == names[0];
        let j = choose|j: int| 0 <= j < items.len() && (#[trigger] items[j]).tenant.0@ == names[1];
        crate::text::lemma_text_lt_asymmetric(names[0], names[1]);
        assert(items[i].tenant.0@ != items[j].tenant.0@);
    }
}

/// A partition runs every intent exactly once: each position is a member of
/// the leg of its tenant.
pub proof fn law_partition_keeps_every_intent(legs: Seq<Leg>, items: Seq<BatchItem>, i: int)
    requires
        partitions(legs, items),
        0 <= i < items.len() <= usize::MAX,
    ensures
        exists|k: int|
            0 <= k < legs.len() && (#[trigger] legs[k]).tenant.0@ == items[i].tenant.0@
                && legs[k].members@.contains(i as usize),
{
    let t = items[i].tenant.0@;
    assert(leg_tenants(legs).contains(t));
    let k = choose|k: int| 0 <= k < leg_tenants(legs).len() && leg_tenants(legs)[k] == t;
    lemma_member_present(items, t, i);
    assert(legs[k].tenant.0@ == t);
}

/// A position is a member of the leg of its tenant.
proof fn lemma_member_present(items: Seq<BatchItem>, tenant: Seq<char>, i: int)
    requires
        0 <= i < items.len() <= usize::MAX,
        items[i].tenant.0@ == tenant,
    ensures
        members_of_tenant(items, tenant).contains(i as usize),
    decreases items.len(),
{
    let rest = items.drop_last();
    let earlier = members_of_tenant(rest, tenant);
    let all = members_of_tenant(items, tenant);
    if i == items.len() - 1 {
        assert(all[all.len() - 1] == i as usize);
    } else {
        assert(rest[i].tenant.0@ == tenant);
        lemma_member_present(rest, tenant, i);
        let m = choose|m: int| 0 <= m < earlier.len() && earlier[m] == i as usize;
        assert(all[m] == i as usize);
    }
}

/// Whether legs are not empty and point at items.
pub open spec fn legs_filled(legs: Seq<Leg>, items: nat) -> bool {
    forall|k: int|
        0 <= k < legs.len() ==> (#[trigger] legs[k]).members@.len() > 0 && (forall|m: int|
            0 <= m < legs[k].members@.len() ==> #[trigger] legs[k].members@[m] < items)
}

// ---------------------------------------------------------------------------
// The machine.
// ---------------------------------------------------------------------------
/// Where a batch stands: paused for outside work, or done.
pub enum BatchStep {
    /// Needs a transaction over the scope.
    Begin(AwaitBegin),
    /// Needs the execution of one intent.
    RunIntent(AwaitRun),
    /// Needs the verdict on the settlement's shape.
    CheckSettlement(AwaitVerdict),
    /// Needs the events persisted by the durable sink.
    Persist(AwaitPersist),
    /// Needs the transaction committed.
    Commit(AwaitCommit),
    /// Needs the transaction rolled back.
    Rollback(AwaitRollback),
    /// Finished: the events per tenant leg, or why there are none.
    Done(Result<Vec<TenantEventGroup>, ExecutorError>),
}

/// The fixed part of a batch.
pub struct Batch {
    kind: BatchKind,
    durable: bool,
    items: Vec<BatchItem>,
    legs: Vec<Leg>,
}

impl Batch {
    #[verifier::type_invariant]
    spec fn consistent(self) -> bool {
        legs_for(self.kind, self.legs@, self.items@) && legs_filled(self.legs@, self.items@.len())
    }

    /// The kind of batch.
    pub closed spec fn kind(self) -> BatchKind {
        self.kind
    }

    /// Whether events go to a durable sink.
    pub closed spec fn durable(self) -> bool {
        self.durable
    }

    /// The intents.
    pub closed spec fn items(self) -> Seq<BatchItem> {
        self.items@
    }

    /// The legs.
    pub closed spec fn legs(self) -> Seq<Leg> {
        self.legs@
    }
}

/// Whether a step is the beginning of a batch on the given items: a refusal
/// when they cannot start one, the first execution when the events go to a
/// durable sink, and a transaction otherwise.
pub open spec fn begun(
    r: BatchStep,
    kind: BatchKind,
    durable: bool,
    items: Seq<BatchItem>,
) -> bool {
    if !startable(kind, items) {
        match r {
            BatchStep::Done(Err(ExecutorError::AtomicityViolation(message))) => message@
                == start_complaint(kind),
            _ => false,
        }
    } else if durable {
        match r {
            BatchStep::RunIntent(next) => next.batch().kind() == kind && next.batch().durable()
                && next.batch().items() == items && legs_for(kind, next.batch().legs(), items)
                && next.leg() == 0 && next.member() == 0 && next.groups().len() == 0
                && next.running().len() == 0,
            _ => false,
        }
    } else {
        match r {
            BatchStep::Begin(next) => next.batch().kind() == kind && !next.batch().durable()
                && next.batch().items() == items && legs_for(kind, next.batch().legs(), items),
            _ => false,
        }
    }
}

/// Begins a batch on the given items.
pub fn begin_batch(kind: BatchKind, durable: bool, items: Vec<BatchItem>) -> (r: BatchStep)
    ensures
        begun(r, kind, durable, items@),
{
    proof {
        assert(items@.len() <= usize::MAX) by {
            assert(items.len() == items@.len());
        }
    }
    let legs: Vec<Leg> = if kind.is_spanning() {
        let legs = partition(&items);
        proof {
            lemma_two_legs(legs@, items@);
            lemma_legs_filled(legs@, items@);
        }
        if legs.len() < 2 {
            let message = match kind {
                BatchKind::CrossTenantTrade => {
                    "cross-tenant trade requires at least two distinct tenants".to_owned()
                },
                _ => "cross-tenant batch requires at least two distinct tenants".to_owned(),
            };
            return BatchStep::Done(Err(ExecutorError::AtomicityViolation(message)));
        }
        legs
    } else {
        if items.len() == 0 {
            let message = match kind {
                BatchKind::Settle => "empty settle batch".to_owned(),
                _ => "empty batch".to_owned(),
            };
            return BatchStep::Done(Err(ExecutorError::AtomicityViolation(message)));
        }
        let mut members: Vec<usize> = Vec::new();
        let mut i: usize = 0;
        while i < items.len()
            invariant
                i <= items@.len(),
                members@.len() == i,
                forall|k: int| 0 <= k < i ==> #[trigger] members@[k] == k,
            decreases items@.len() - i,
        {
            members.push(i);
            i = i + 1;
        }
        let mut legs: Vec<Leg> = Vec::new();
        legs.push(Leg { tenant: items[0].tenant.clone(), members });
        legs
    };
    let batch = Batch { kind, durable, items, legs };
    if durable {
        BatchStep::RunIntent(start_running(batch))
    } else {
        BatchStep::Begin(AwaitBegin { batch })
    }
}

fn start_running(batch: Batch) -> (r: AwaitRun)
    ensures
        r.batch() == batch,
        r.leg() == 0,
        r.member() == 0,
        r.groups().len() == 0,
        r.running().len() == 0,
{
    proof {
        use_type_invariant(&batch);
    }
    AwaitRun { batch, leg: 0, member: 0, groups: Vec::new(), running: Vec::new() }
}

/// Waits for a transaction over the batch's scope.
pub struct AwaitBegin {
    batch: Batch,
}

impl AwaitBegin {
    /// The batch.
    pub closed spec fn batch(self) -> Batch {
        self.batch
    }

    /// Whether the transaction spans tenants.
    pub fn spanning(&self) -> (r: bool)
        ensures
            r == self.batch().kind().spans(),
    {
        self.batch.kind.is_spanning()
    }

    /// The tenants in the transaction's scope: one, or all of them in order.
    pub fn scope(&self) -> (r: Vec<TenantId>)
        ensures
            r@.len() == self.batch().legs().len(),
            forall|k: int|
                0 <= k < r@.len() ==> #[trigger] r@[k] == self.batch().legs()[k].tenant,
    {
        let mut tenants: Vec<TenantId> = Vec::new();
        let mut i: usize = 0;
        while i < self.batch.legs.len()
            invariant
                i <= self.batch.legs@.len(),
                tenants@.len() == i,
                forall|k: int| 0 <= k < i ==> #[trigger] tenants@[k] == self.batch.legs@[k].tenant,
            decreases self.batch.legs@.len() - i,
        {
            tenants.push(self.batch.legs[i].tenant.clone());
            i = i + 1;
        }
        tenants
    }

    /// Starts running, unless the coordinator failed.
    pub fn resume(self, begun: Result<(), TransactionManagerError>) -> (r: BatchStep)
        ensures
            match begun {
                Ok(()) => match r {
                    BatchStep::RunIntent(next) => next.batch() == self.batch() && next.leg() == 0
                        && next.member() == 0 && next.groups().len() == 0 && next.running().len()
                        == 0,
                    _ => false,
                },
                Err(failure) => r is Done && r->Done_0 is Err && store_report(
                    r->Done_0->Err_0,
                    failure.text(),
                ),
            },
    {
        match begun {
            Ok(()) => BatchStep::RunIntent(start_running(self.batch)),
            Err(failure) => BatchStep::Done(Err(map_transaction_manager_error(&failure))),
        }
    }
}

/// Waits for the execution of one intent.
pub struct AwaitRun {
    batch: Batch,
    leg: usize,
    member: usize,
    groups: Vec<TenantEventGroup>,
    running: Vec<Event>,
}

/// The complaint about an intent of a plain batch that was accepted before.
pub open spec fn replay_complaint(intent_id: Seq<char>) -> Seq<char> {
    "partial replay detected in batch: intent `"@ + intent_id
        + "` was already claimed and replayed idempotently; the batch fails closed so no partial results escape"@
}

/// Where a batch goes when something in it failed.
pub open spec fn after_failure(r: BatchStep, batch: Batch, text: Seq<char>) -> bool {
    if batch.durable() {
        match r {
            BatchStep::Done(Err(ExecutorError::AtomicityViolation(message))) => message@ == text,
            _ => false,
        }
    } else {
        match r {
            BatchStep::Rollback(next) => next.reason() == text,
            _ => false,
        }
    }
}

/// Where a batch goes once its events are known to fit together.
pub open spec fn after_sound(r: BatchStep, batch: Batch, groups: Seq<TenantEventGroup>) -> bool {
    if !batch.durable() {
        match r {
            BatchStep::Commit(next) => next.kind() == batch.kind() && next.groups() == groups,
            _ => false,
        }
    } else if all_empty(groups) {
        match r {
            BatchStep::Done(Ok(emitted)) => emitted@ == groups,
            _ => false,
        }
    } else {
        match r {
            BatchStep::Persist(next) => next.kind() == batch.kind() && next.groups() == groups,
            _ => false,
        }
    }
}

/// Where a batch goes once all intents have run.
pub open spec fn after_run(r: BatchStep, batch: Batch, groups: Seq<TenantEventGroup>) -> bool {
    if !outcome_sound(batch.kind(), groups) {
        exists|error: ExecutorError| #[trigger]
            outcome_report(error, batch.kind(), groups) && after_failure(r, batch, error.text())
    } else if batch.kind().admits_value_legs() {
        match r {
            BatchStep::CheckSettlement(next) => next.batch() == batch && next.groups() == groups,
            _ => false,
        }
    } else {
        after_sound(r, batch, groups)
    }
}

fn fail(batch: Batch, error: ExecutorError) -> (r: BatchStep)
    ensures
        after_failure(r, batch, error.text()),
{
    let reason = error.message();
    if batch.durable {
        BatchStep::Done(Err(ExecutorError::AtomicityViolation(reason)))
    } else {
        BatchStep::Rollback(AwaitRollback { reason })
    }
}

fn are_all_empty(groups: &Vec<TenantEventGroup>) -> (r: bool)
    ensures
        r == all_empty(groups@),
{
    let mut g: usize = 0;
    while g < groups.len()
        invariant
            g <= groups@.len(),
            forall|k: int| 0 <= k < g ==> (#[trigger] groups@[k]).events@.len() == 0,
        decreases groups@.len() - g,
    {
        if groups[g].events.len() > 0 {
            assert(groups@[g as int].events@.len() > 0);
            return false;
        }
        g = g + 1;
    }
    true
}

fn is_none_empty(groups: &Vec<TenantEventGroup>) -> (r: bool)
    ensures
        r == none_empty(groups@),
{
    let mut g: usize = 0;
    while g < groups.len()
        invariant
            g <= groups@.len(),
            forall|k: int| 0 <= k < g ==> (#[trigger] groups@[k]).events@.len() > 0,
        decreases groups@.len() - g,
    {
        if groups[g].events.len() == 0 {
            assert(groups@[g as int].events@.len() == 0);
            return false;
        }
        g = g + 1;
    }
    true
}

fn check_linkage(groups: &Vec<TenantEventGroup>) -> (r: Result<(), ExecutorError>)
    ensures
        match r {
            Ok(()) => outcome_sound(BatchKind::CrossTenant, groups@),
            Err(error) => !outcome_sound(BatchKind::CrossTenant, groups@) && outcome_report(
                error,
                BatchKind::CrossTenant,
                groups@,
            ),
        },
{
    match validate_cross_tenant_consistency(groups.as_slice()) {
        Ok(()) => {},
        Err(error) => {
            proof {
                law_sound_transactions_have_no_fault(groups@);
            }
            return Err(error);
        },
    }
    if is_none_empty(groups) {
        Ok(())
    } else {
        let error = unlinked();
        assert(reports(error, unlinked_fault()));
        Err(error)
    }
}

fn deliver(batch: Batch, groups: Vec<TenantEventGroup>) -> (r: BatchStep)
    requires
        outcome_sound(batch.kind(), groups@),
    ensures
        after_sound(r, batch, groups@),
{
    if !batch.durable {
        BatchStep::Commit(AwaitCommit { kind: batch.kind, groups })
    } else if are_all_empty(&groups) {
        BatchStep::Done(Ok(groups))
    } else {
        BatchStep::Persist(AwaitPersist { kind: batch.kind, groups })
    }
}

fn judge(batch: Batch, groups: Vec<TenantEventGroup>) -> (r: BatchStep)
    requires
        groups@.len() == batch.legs().len(),
    ensures
        after_run(r, batch, groups@),
{
    proof {
        use_type_invariant(&batch);
    }
    let verdict = match batch.kind {
        BatchKind::Batch | BatchKind::Settle => validate_batch_consistency(
            groups[0].events.as_slice(),
        ),
        BatchKind::CrossTenant => check_linkage(&groups),
        BatchKind::CrossTenantTrade => Ok(()),
    };
    match verdict {
        Err(error) => {
            proof {
                if batch.kind != BatchKind::CrossTenant {
                    assert forall|fault: Fault| batch_sound(groups@[0].events@) implies
                        !first_fault(groups@[0].events@, fault) by {
                        law_sound_batches_have_no_fault(groups@[0].events@, fault);
                    }
                }
                assert(outcome_report(error, batch.kind, groups@));
            }
            fail(batch, error)
        },
        Ok(()) => match batch.kind {
            BatchKind::Settle | BatchKind::CrossTenantTrade => BatchStep::CheckSettlement(
                AwaitVerdict { batch, groups },
            ),
            BatchKind::Batch | BatchKind::CrossTenant => deliver(batch, groups),
        },
    }
}

impl AwaitRun {
    #[verifier::type_invariant]
    spec fn consistent(self) -> bool {
        &&& self.leg < self.batch.legs().len()
        &&& self.member < self.batch.legs()[self.leg as int].members@.len()
        &&& self.groups@.len() == self.leg
    }

    /// The batch.
    pub closed spec fn batch(self) -> Batch {
        self.batch
    }

    /// The leg that runs.
    pub closed spec fn leg(self) -> nat {
        self.leg as nat
    }

    /// The member of the leg that runs.
    pub closed spec fn member(self) -> nat {
        self.member as nat
    }

    /// The finished legs.
    pub closed spec fn groups(self) -> Seq<TenantEventGroup> {
        self.groups@
    }

    /// The events of the running leg so far.
    pub closed spec fn running(self) -> Seq<Event> {
        self.running@
    }

    /// The position of the intent to execute.
    pub fn index(&self) -> (r: usize)
        ensures
            self.leg() < self.batch().legs().len(),
            self.member() < self.batch().legs()[self.leg() as int].members@.len(),
            r == self.batch().legs()[self.leg() as int].members@[self.member() as int],
            r < self.batch().items().len(),
    {
        proof {
            use_type_invariant(self);
            use_type_invariant(&self.batch);
        }
        self.batch.legs[self.leg].members[self.member]
    }

    /// Whether the intent may declare a value leg.
    pub fn allow_value_legs(&self) -> (r: bool)
        ensures
            r == self.batch().kind().admits_value_legs(),
    {
        match self.batch.kind {
            BatchKind::Settle | BatchKind::CrossTenantTrade => true,
            BatchKind::Batch | BatchKind::CrossTenant => false,
        }
    }

    /// Whether the intent id is claimed by the execution: only a durable sink
    /// owns a boundary within which claims can be undone.
    pub fn persist_intent(&self) -> (r: bool)
        ensures
            r == self.batch().durable(),
    {
        self.batch.durable
    }

    /// Takes the events of one intent and goes on to the next, the next leg,
    /// or the check of all events. A plain batch takes no replay.
    pub fn resume(self, produced: Result<Vec<Event>, ExecutorError>) -> (r: BatchStep)
        ensures
            ({
                let batch = self.batch();
                let current = batch.legs()[self.leg() as int];
                let item = batch.items()[current.members@[self.member() as int] as int];
                match produced {
                    Err(error) => after_failure(r, batch, error.text()),
                    Ok(events) => if batch.kind() == BatchKind::Batch && events@.len() == 0 {
                        after_failure(
                            r,
                            batch,
                            "atomicity violation: "@ + replay_complaint(item.intent_id.0@),
                        )
                    } else if self.member() + 1 < current.members@.len() {
                        match r {
                            BatchStep::RunIntent(next) => next.batch() == batch && next.leg()
                                == self.leg() && next.member() == self.member() + 1
                                && next.groups() == self.groups() && next.running()
                                == self.running() + events@,
                            _ => false,
                        }
                    } else {
                        exists|group: TenantEventGroup|
                            group.tenant == current.tenant && group.events@ == self.running()
                                + events@ && #[trigger] leg_finished(r, self, group)
                    },
                }
            }),
    {
        proof {
            use_type_invariant(&self);
            use_type_invariant(&self.batch);
        }
        let ghost this = self;
        let AwaitRun { batch, leg, member, groups, running } = self;
        let mut events = match produced {
            Ok(events) => events,
            Err(error) => {
                return fail(batch, error);
            },
        };
        if batch.kind == BatchKind::Batch && events.len() == 0 {
            let index: usize = batch.legs[leg].members[member];
            let error = ExecutorError::AtomicityViolation(
                join3(
                    "partial replay detected in batch: intent `",
                    batch.items[index].intent_id.as_str(),
                    "` was already claimed and replayed idempotently; the batch fails closed so no partial results escape",
                ),
            );
            return fail(batch, error);
        }
        let mut running = running;
        running.append(&mut events);
        if member < batch.legs[leg].members.len() - 1 {
            return BatchStep::RunIntent(
                AwaitRun { batch, leg, member: member + 1, groups, running },
            );
        }
        let mut groups = groups;
        let group = TenantEventGroup { tenant: batch.legs[leg].tenant.clone(), events: running };
        let ghost finished = group;
        groups.push(group);
        if leg < batch.legs.len() - 1 {
            let step = BatchStep::RunIntent(
                AwaitRun { batch, leg: leg + 1, member: 0, groups, running: Vec::new() },
            );
            assert(leg_finished(step, this, finished));
            return step;
        }
        let step = judge(batch, groups);
        assert(leg_finished(step, this, finished));
        step
    }
}

/// Where a batch goes once a leg has run: to the next leg, or to the check of
/// all events.
pub open spec fn leg_finished(r: BatchStep, from: AwaitRun, group: TenantEventGroup) -> bool {
    if from.leg() + 1 < from.batch().legs().len() {
        match r {
            BatchStep::RunIntent(next) => next.batch() == from.batch() && next.leg() == from.leg()
                + 1 && next.member() == 0 && next.groups() == from.groups().push(group)
                && next.running().len() == 0,
            _ => false,
        }
    } else {
        after_run(r, from.batch(), from.groups().push(group))
    }
}

/// Whether an intent settles a trade.
pub open spec fn settles_trade(intent: Intent) -> bool {
    intent.operation.0@ == "trade.settle"@
}

/// The intents that settle a trade, in order: those that a settlement is
/// checked against. The others of its batch are its value legs.
pub open spec fn settlements(intents: Seq<ValidatedIntent>) -> Seq<Intent> {
    intents.map_values(|validated: ValidatedIntent| validated.intent).filter(
        |intent: Intent| settles_trade(intent),
    )
}

/// The intents of a batch that a settlement is checked against.
pub fn settle_intents<'a>(intents: &'a [ValidatedIntent]) -> (r: Vec<&'a Intent>)
    ensures
        r@.map_values(|intent: &'a Intent| *intent) == settlements(intents@),
{
    let mut found: Vec<&'a Intent> = Vec::new();
    let mut i: usize = 0;
    let ghost all = intents@.map_values(|validated: ValidatedIntent| validated.intent);
    let ghost wanted = |intent: Intent| settles_trade(intent);
    proof {
        reveal(Seq::filter);
        assert(found@.map_values(|intent: &'a Intent| *intent) =~= all.take(0).filter(wanted));
    }
    while i < intents.len()
        invariant
            i <= intents@.len(),
            all == intents@.map_values(|validated: ValidatedIntent| validated.intent),
            wanted == (|intent: Intent| settles_trade(intent)),
            found@.map_values(|intent: &'a Intent| *intent) == all.take(i as int).filter(wanted),
        decreases intents@.len() - i,
    {
        let ghost before = found@.map_values(|intent: &'a Intent| *intent);
        proof {
            reveal(Seq::filter);
            assert(all.take(i + 1).drop_last() =~= all.take(i as int));
            assert(all.take(i + 1).last() == intents@[i as int].intent);
        }
        if intents[i].intent.operation.is("trade.settle") {
            found.push(&intents[i].intent);
            assert(found@.map_values(|intent: &'a Intent| *intent) =~= before.push(
                intents@[i as int].intent,
            ));
        }
        i = i + 1;
    }
    assert(all.take(i as int) =~= all);
    found
}

/// Waits for the verdict on a settlement's value legs or manifest.
pub struct AwaitVerdict {
    batch: Batch,
    groups: Vec<TenantEventGroup>,
}

impl AwaitVerdict {
    #[verifier::type_invariant]
    spec fn consistent(self) -> bool {
        outcome_sound(self.batch.kind(), self.groups@)
    }

    /// The batch.
    pub closed spec fn batch(self) -> Batch {
        self.batch
    }

    /// The events per leg.
    pub closed spec fn groups(self) -> Seq<TenantEventGroup> {
        self.groups@
    }

    /// The events per leg, for the verdict.
    pub fn events(&self) -> (r: &Vec<TenantEventGroup>)
        ensures
            r@ == self.groups(),
    {
        &self.groups
    }

    /// Goes on with an accepted settlement.
    pub fn resume(self, verdict: Result<(), ExecutorError>) -> (r: BatchStep)
        ensures
            match verdict {
                Ok(()) => after_sound(r, self.batch(), self.groups()),
                Err(error) => after_failure(r, self.batch(), error.text()),
            },
    {
        proof {
            use_type_invariant(&self);
        }
        match verdict {
            Ok(()) => deliver(self.batch, self.groups),
            Err(error) => fail(self.batch, error),
        }
    }
}

/// Waits for the durable sink.
pub struct AwaitPersist {
    kind: BatchKind,
    groups: Vec<TenantEventGroup>,
}

impl AwaitPersist {
    #[verifier::type_invariant]
    spec fn consistent(self) -> bool {
        outcome_sound(self.kind, self.groups@)
    }

    /// The kind of batch.
    pub closed spec fn kind(self) -> BatchKind {
        self.kind
    }

    /// The events per leg.
    pub closed spec fn groups(self) -> Seq<TenantEventGroup> {
        self.groups@
    }

    /// The events per leg, for the sink.
    pub fn events(&self) -> (r: &Vec<TenantEventGroup>)
        ensures
            r@ == self.groups(),
    {
        &self.groups
    }

    /// Succeeds only once everything is persisted.
    pub fn resume(self, persisted: Result<(), String>) -> (r: BatchStep)
        ensures
            match persisted {
                Ok(()) => match r {
                    BatchStep::Done(Ok(groups)) => groups@ == self.groups() && outcome_sound(
                        self.kind(),
                        groups@,
                    ),
                    _ => false,
                },
                Err(message) => match r {
                    BatchStep::Done(Err(ExecutorError::Store(text))) => text == message,
                    _ => false,
                },
            },
    {
        proof {
            use_type_invariant(&self);
        }
        match persisted {
            Ok(()) => BatchStep::Done(Ok(self.groups)),
            Err(message) => BatchStep::Done(Err(ExecutorError::Store(message))),
        }
    }
}

/// Waits for the commit of the transaction.
pub struct AwaitCommit {
    kind: BatchKind,
    groups: Vec<TenantEventGroup>,
}

impl AwaitCommit {
    #[verifier::type_invariant]
    spec fn consistent(self) -> bool {
        outcome_sound(self.kind, self.groups@)
    }

    /// The kind of batch.
    pub closed spec fn kind(self) -> BatchKind {
        self.kind
    }

    /// The events per leg.
    pub closed spec fn groups(self) -> Seq<TenantEventGroup> {
        self.groups@
    }

    /// Hands the events out once the transaction is committed.
    pub fn resume(self, committed: Result<(), TransactionManagerError>) -> (r: BatchStep)
        ensures
            match committed {
                Ok(()) => match r {
                    BatchStep::Done(Ok(groups)) => groups@ == self.groups() && outcome_sound(
                        self.kind(),
                        groups@,
                    ),
                    _ => false,
                },
                Err(failure) => r is Done && r->Done_0 is Err && store_report(
                    r->Done_0->Err_0,
                    failure.text(),
                ),
            },
    {
        proof {
            use_type_invariant(&self);
        }
        match committed {
            Ok(()) => BatchStep::Done(Ok(self.groups)),
            Err(failure) => BatchStep::Done(Err(map_transaction_manager_error(&failure))),
        }
    }
}

/// Waits for the rollback of the transaction.
pub struct AwaitRollback {
    reason: String,
}

impl AwaitRollback {
    /// Why the batch failed.
    pub closed spec fn reason(self) -> Seq<char> {
        self.reason@
    }

    /// Reports the failure, whatever became of the rollback.
    pub fn resume(self, _rolled_back: Result<(), TransactionManagerError>) -> (r: BatchStep)
        ensures
            match r {
                BatchStep::Done(Err(ExecutorError::AtomicityViolation(message))) => message@
                    == self.reason(),
                _ => false,
            },
    {
        BatchStep::Done(Err(ExecutorError::AtomicityViolation(self.reason)))
    }
}

} // verus!
