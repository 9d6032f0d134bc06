//! Batches with every outside reply at hand.
//!
//! A batch pauses for each execution and around its transaction. This module
//! states what comes of it as a whole: every intent goes through and all
//! events come out, or none does.
use vstd::prelude::*;

use crate::domain::event::Event;
use crate::executor::atomicity::TenantEventGroup;
use crate::executor::batch::{
    after_failure, after_run, all_empty, begin_batch, law_partition_keeps_every_intent,
    leg_finished, leg_tenants, legs_for, members_of_tenant, outcome_report, outcome_sound,
    replay_complaint, start_complaint, startable, AwaitRun, BatchItem, BatchKind, BatchStep, Leg,
};
use crate::executor::complete::Outcome;
use crate::executor::error::ExecutorError;
use crate::executor::pipeline::store_report;
use crate::ports::errors::TransactionManagerError;
use crate::text::lemma_text_lt_asymmetric;

verus! {

/// What a batch comes to.
pub type BatchOutcome = Result<Vec<TenantEventGroup>, ExecutorError>;

/// Every reply that a batch may ask for.
pub struct BatchReplies {
    /// Whether the transaction began.
    pub begun: Result<(), TransactionManagerError>,
    /// What each intent's execution came to.
    pub outcomes: Vec<Outcome>,
    /// The verdict on a settlement.
    pub verdict: Result<(), ExecutorError>,
    /// The word of the durable sink.
    pub persisted: Result<(), String>,
    /// Whether the transaction was committed.
    pub committed: Result<(), TransactionManagerError>,
    /// Whether the transaction was rolled back.
    pub rolled_back: Result<(), TransactionManagerError>,
}

/// Whether an execution lets its batch go on: a plain batch takes no replay.
pub open spec fn goes_through(kind: BatchKind, outcome: Outcome) -> bool {
    outcome is Ok && (kind == BatchKind::Batch ==> outcome->Ok_0@.len() > 0)
}

/// The events of executions, one after the other.
pub open spec fn gathered(outcomes: Seq<Outcome>, members: Seq<usize>) -> Seq<Event>
    decreases members.len(),
{
    if members.len() == 0 {
        Seq::empty()
    } else {
        gathered(outcomes, members.drop_last()) + outcomes[members.last() as int]->Ok_0@
    }
}

/// Whether groups hold the events of every intent, leg by leg.
pub open spec fn assembled(
    groups: Seq<TenantEventGroup>,
    legs: Seq<Leg>,
    outcomes: Seq<Outcome>,
) -> bool {
    groups.len() == legs.len() && forall|k: int|
        0 <= k < groups.len() ==> (#[trigger] groups[k]).tenant == legs[k].tenant
            && groups[k].events@ == gathered(outcomes, legs[k].members@)
}

/// The execution of a member of a leg.
pub open spec fn execution_of(outcomes: Seq<Outcome>, legs: Seq<Leg>, k: int, m: int) -> Outcome {
    outcomes[legs[k].members@[m] as int]
}

/// Whether legs have a member at a place.
pub open spec fn has_member(legs: Seq<Leg>, k: int, m: int) -> bool {
    0 <= k < legs.len() && 0 <= m < legs[k].members@.len()
}

/// Whether every execution before a place lets the batch go on.
pub open spec fn through_before(
    kind: BatchKind,
    outcomes: Seq<Outcome>,
    legs: Seq<Leg>,
    k: int,
    m: int,
) -> bool {
    forall|i: int, j: int|
        has_member(legs, i, j) && (i < k || (i == k && j < m)) ==> goes_through(
            kind,
            #[trigger] execution_of(outcomes, legs, i, j),
        )
}

/// Whether a place holds the first execution that stops its batch.
pub open spec fn stops_at(
    kind: BatchKind,
    outcomes: Seq<Outcome>,
    legs: Seq<Leg>,
    k: int,
    m: int,
) -> bool {
    has_member(legs, k, m) && !goes_through(kind, execution_of(outcomes, legs, k, m))
        && through_before(kind, outcomes, legs, k, m)
}

/// Whether every execution lets the batch go on.
pub open spec fn all_through(kind: BatchKind, outcomes: Seq<Outcome>, legs: Seq<Leg>) -> bool {
    forall|i: int, j: int|
        has_member(legs, i, j) ==> goes_through(
            kind,
            #[trigger] execution_of(outcomes, legs, i, j),
        )
}

/// Why an execution stops its batch.
pub open spec fn stop_text(outcome: Outcome, item: BatchItem) -> Seq<char> {
    match outcome {
        Err(error) => error.text(),
        Ok(_) => "atomicity violation: "@ + replay_complaint(item.intent_id.0@),
    }
}

/// Whether a batch failed as a whole with a text.
pub open spec fn violated(r: BatchOutcome, text: Seq<char>) -> bool {
    r matches Err(ExecutorError::AtomicityViolation(message)) && message@ == text
}

/// What comes of a batch whose every execution has gone through.
pub open spec fn judged(
    r: BatchOutcome,
    kind: BatchKind,
    durable: bool,
    groups: Seq<TenantEventGroup>,
    w: BatchReplies,
) -> bool {
    if !outcome_sound(kind, groups) {
        exists|error: ExecutorError| #[trigger]
            outcome_report(error, kind, groups) && violated(r, error.text())
    } else if kind.admits_value_legs() && w.verdict is Err {
        violated(r, w.verdict->Err_0.text())
    } else if !durable && w.committed is Err {
        r is Err && store_report(r->Err_0, w.committed->Err_0.text())
    } else if durable && !all_empty(groups) && w.persisted is Err {
        r == Err::<Vec<TenantEventGroup>, ExecutorError>(ExecutorError::Store(w.persisted->Err_0))
    } else {
        r is Ok && r->Ok_0@ == groups
    }
}

/// What comes of a batch that runs on legs.
pub open spec fn ran(
    r: BatchOutcome,
    kind: BatchKind,
    durable: bool,
    items: Seq<BatchItem>,
    legs: Seq<Leg>,
    w: BatchReplies,
) -> bool {
    if all_through(kind, w.outcomes@, legs) {
        exists|groups: Seq<TenantEventGroup>| #[trigger]
            assembled(groups, legs, w.outcomes@) && judged(r, kind, durable, groups, w)
    } else {
        exists|k: int, m: int| #[trigger]
            stops_at(kind, w.outcomes@, legs, k, m) && violated(
                r,
                stop_text(
                    execution_of(w.outcomes@, legs, k, m),
                    items[legs[k].members@[m] as int],
                ),
            )
    }
}

/// What comes of a batch.
pub open spec fn settled(
    r: BatchOutcome,
    kind: BatchKind,
    durable: bool,
    items: Seq<BatchItem>,
    w: BatchReplies,
) -> bool {
    if !startable(kind, items) {
        violated(r, start_complaint(kind))
    } else if !durable && w.begun is Err {
        r is Err && store_report(r->Err_0, w.begun->Err_0.text())
    } else {
        exists|legs: Seq<Leg>| #[trigger]
            legs_for(kind, legs, items) && ran(r, kind, durable, items, legs, w)
    }
}

/// The members of a tenant's leg are distinct positions of its intents.
pub proof fn lemma_members(items: Seq<BatchItem>, tenant: Seq<char>)
    requires
        items.len() <= usize::MAX,
    ensures
        forall|m: int|
            0 <= m < members_of_tenant(items, tenant).len() ==> (#[trigger] members_of_tenant(
                items,
                tenant,
            )[m]) < items.len() && items[members_of_tenant(
                items,
                tenant,
            )[m] as int].tenant.0@ == tenant,
        forall|a: int, b: int|
            0 <= a < b < members_of_tenant(items, tenant).len() ==> #[trigger] members_of_tenant(
                items,
                tenant,
            )[a] < #[trigger] members_of_tenant(items, tenant)[b],
    decreases items.len(),
{
    if items.len() > 0 {
        let rest = items.drop_last();
        lemma_members(rest, tenant);
        let earlier = members_of_tenant(rest, tenant);
        let all = members_of_tenant(items, tenant);
        assert forall|m: int| 0 <= m < all.len() implies (#[trigger] all[m]) < items.len()
            && items[all[m] as int].tenant.0@ == tenant by {
            if m < earlier.len() {
                assert(all[m] == earlier[m]);
                assert(rest[earlier[m] as int] == items[earlier[m] as int]);
            }
        }
        assert forall|a: int, b: int| 0 <= a < b < all.len() implies #[trigger] all[a]
            < #[trigger] all[b] by {
            assert(all[a] == earlier[a]);
            if b < earlier.len() {
                assert(all[b] == earlier[b]);
            }
        }
    }
}

/// A place of a batch's legs is a position that no other place has.
proof fn lemma_places_are_distinct(
    kind: BatchKind,
    legs: Seq<Leg>,
    items: Seq<BatchItem>,
    k: int,
    m: int,
)
    requires
        legs_for(kind, legs, items),
        items.len() <= usize::MAX,
        has_member(legs, k, m),
    ensures
        legs[k].members@[m] < items.len(),
        forall|i: int, j: int|
            has_member(legs, i, j) && (i != k || j != m) ==> #[trigger] legs[i].members@[j]
                != legs[k].members@[m],
{
    if kind.spans() {
        lemma_members(items, legs[k].tenant.0@);
        assert(members_of_tenant(items, legs[k].tenant.0@) == legs[k].members@);
        assert forall|i: int, j: int|
            has_member(legs, i, j) && (i != k || j != m) implies #[trigger] legs[i].members@[j]
            != legs[k].members@[m] by {
            if i != k {
                lemma_members(items, legs[i].tenant.0@);
                assert(members_of_tenant(items, legs[i].tenant.0@) == legs[i].members@);
                let names = leg_tenants(legs);
                assert(names[i] == legs[i].tenant.0@ && names[k] == legs[k].tenant.0@);
                if names[i] == names[k] {
                    lemma_text_lt_asymmetric(names[i], names[k]);
                }
            }
        }
    }
}

fn run_legs(first: AwaitRun, produced: Vec<Outcome>) -> (r: BatchStep)
    requires
        first.leg() == 0,
        first.member() == 0,
        first.groups().len() == 0,
        first.running().len() == 0,
        legs_for(first.batch().kind(), first.batch().legs(), first.batch().items()),
        produced@.len() == first.batch().items().len(),
    ensures
        ({
            let batch = first.batch();
            if all_through(batch.kind(), produced@, batch.legs()) {
                exists|groups: Seq<TenantEventGroup>| #[trigger]
                    assembled(groups, batch.legs(), produced@) && after_run(r, batch, groups)
            } else {
                exists|k: int, m: int| #[trigger]
                    stops_at(batch.kind(), produced@, batch.legs(), k, m) && after_failure(
                        r,
                        batch,
                        stop_text(
                            execution_of(produced@, batch.legs(), k, m),
                            batch.items()[batch.legs()[k].members@[m] as int],
                        ),
                    )
            }
        }),
{
    let ghost all = produced@;
    let ghost batch = first.batch();
    let ghost kind = batch.kind();
    let ghost legs = batch.legs();
    let ghost items = batch.items();
    let mut outcomes = produced;
    let mut wait = first;
    assert(outcomes@.len() <= usize::MAX) by {
        assert(outcomes.len() == outcomes@.len());
    }
    assert(wait.running() =~= gathered(all, legs[0].members@.take(0)));
    loop
        invariant
            all == produced@,
            batch == first.batch(),
            wait.batch() == batch,
            kind == batch.kind(),
            legs == batch.legs(),
            items == batch.items(),
            legs_for(kind, legs, items),
            items.len() <= usize::MAX,
            all.len() == items.len(),
            outcomes@.len() == items.len(),
            wait.groups().len() == wait.leg(),
            forall|k: int|
                0 <= k < wait.groups().len() ==> (#[trigger] wait.groups()[k]).tenant
                    == legs[k].tenant && wait.groups()[k].events@ == gathered(
                    all,
                    legs[k].members@,
                ),
            wait.running() == gathered(
                all,
                legs[wait.leg() as int].members@.take(wait.member() as int),
            ),
            through_before(kind, all, legs, wait.leg() as int, wait.member() as int),
            forall|i: int, j: int|
                has_member(legs, i, j) && (i > wait.leg() || (i == wait.leg() && j
                    >= wait.member())) ==> #[trigger] execution_of(outcomes@, legs, i, j)
                    == execution_of(all, legs, i, j),
        decreases
                legs.len() - wait.leg(),
                legs[wait.leg() as int].members@.len() - wait.member(),
    {
        let at: usize = wait.index();
        let ghost k = wait.leg() as int;
        let ghost m = wait.member() as int;
        let ghost before = outcomes@;
        let ghost this = wait;
        let mut reply: Outcome = Ok(Vec::new());
        std::mem::swap(&mut reply, &mut outcomes[at]);
        proof {
            lemma_places_are_distinct(kind, legs, items, k, m);
            assert(has_member(legs, k, m));
            assert(reply == execution_of(before, legs, k, m));
            assert(reply == execution_of(all, legs, k, m));
            assert forall|i: int, j: int|
                has_member(legs, i, j) && (i > k || (i == k && j > m)) implies #[trigger]
                execution_of(outcomes@, legs, i, j) == execution_of(all, legs, i, j) by {
                assert(legs[i].members@[j] != legs[k].members@[m]);
                lemma_places_are_distinct(kind, legs, items, i, j);
                assert(execution_of(before, legs, i, j) == execution_of(all, legs, i, j));
            }
            let members = legs[k].members@;
            assert(members.take(m + 1).drop_last() =~= members.take(m));
            if m + 1 == members.len() {
                assert(members.take(m + 1) =~= members);
            }
        }
        let ghost given = reply;
        let step = wait.resume(reply);
        proof {
            if !goes_through(kind, given) {
                assert(stops_at(kind, all, legs, k, m));
                assert(!all_through(kind, all, legs)) by {
                    assert(!goes_through(kind, execution_of(all, legs, k, m)));
                }
            }
        }
        match step {
            BatchStep::RunIntent(next) => {
                wait = next;
                proof {
                    assert(goes_through(kind, given));
                    assert(through_before(kind, all, legs, k, m + 1));
                    if wait.leg() == k + 1 {
                        assert(wait.running() =~= gathered(
                            all,
                            legs[wait.leg() as int].members@.take(0),
                        ));
                        assert forall|i: int, j: int|
                            has_member(legs, i, j) && i < k + 1 implies goes_through(
                            kind,
                            #[trigger] execution_of(all, legs, i, j),
                        ) by {}
                    }
                }
            },
            other => {
                proof {
                    if goes_through(kind, given) {
                        let group = choose|group: TenantEventGroup|
                            group.tenant == legs[k].tenant && group.events@ == this.running()
                                + given->Ok_0@ && #[trigger] leg_finished(other, this, group);
                        let groups = this.groups().push(group);
                        assert(assembled(groups, legs, all));
                        assert(k + 1 == legs.len());
                        assert forall|i: int, j: int| has_member(legs, i, j) implies goes_through(
                            kind,
                            #[trigger] execution_of(all, legs, i, j),
                        ) by {
                            if i == k && j == m {
                                assert(execution_of(all, legs, i, j) == given);
                            }
                        }
                        assert(after_run(other, batch, groups));
                    } else {
                        assert(stops_at(kind, all, legs, k, m));
                        assert(after_failure(
                            other,
                            batch,
                            stop_text(
                                execution_of(all, legs, k, m),
                                items[legs[k].members@[m] as int],
                            ),
                        ));
                    }
                }
                return other;
            },
        }
    }
}

/// Runs a batch on replies that are all at hand.
pub fn run_batch(
    kind: BatchKind,
    durable: bool,
    items: Vec<BatchItem>,
    replies: BatchReplies,
) -> (r: BatchOutcome)
    requires
        replies.outcomes@.len() == items@.len(),
    ensures
        settled(r, kind, durable, items@, replies),
{
    let BatchReplies { begun, outcomes, verdict, persisted, committed, rolled_back } = replies;
    let step = begin_batch(kind, durable, items);
    let step = match step {
        BatchStep::Begin(wait) => wait.resume(begun),
        other => other,
    };
    let step = match step {
        BatchStep::RunIntent(wait) => run_legs(wait, outcomes),
        other => other,
    };
    let step = match step {
        BatchStep::CheckSettlement(wait) => wait.resume(verdict),
        other => other,
    };
    let step = match step {
        BatchStep::Persist(wait) => wait.resume(persisted),
        other => other,
    };
    let step = match step {
        BatchStep::Commit(wait) => wait.resume(committed),
        other => other,
    };
    let step = match step {
        BatchStep::Rollback(wait) => wait.resume(rolled_back),
        other => other,
    };
    match step {
        BatchStep::Done(outcome) => outcome,
        _ => unreached(),
    }
}

/// The events of each member are among the gathered ones.
pub proof fn lemma_gathered(outcomes: Seq<Outcome>, members: Seq<usize>, m: int, e: int)
    requires
        0 <= m < members.len(),
        0 <= e < outcomes[members[m] as int]->Ok_0@.len(),
    ensures
        gathered(outcomes, members).contains(outcomes[members[m] as int]->Ok_0@[e]),
    decreases members.len(),
{
    let earlier = gathered(outcomes, members.drop_last());
    let last = outcomes[members.last() as int]->Ok_0@;
    let event = outcomes[members[m] as int]->Ok_0@[e];
    if m == members.len() - 1 {
        assert((earlier + last)[earlier.len() + e] == event);
    } else {
        assert(members.drop_last()[m] == members[m]);
        lemma_gathered(outcomes, members.drop_last(), m, e);
        let at = choose|at: int| 0 <= at < earlier.len() && earlier[at] == event;
        assert((earlier + last)[at] == event);
    }
}

/// Every intent of a batch has a place in its legs.
pub proof fn lemma_placed(
    kind: BatchKind,
    legs: Seq<Leg>,
    items: Seq<BatchItem>,
    i: int,
) -> (place: (int, int))
    requires
        legs_for(kind, legs, items),
        0 <= i < items.len() <= usize::MAX,
    ensures
        has_member(legs, place.0, place.1),
        legs[place.0].members@[place.1] == i,
{
    if kind.spans() {
        law_partition_keeps_every_intent(legs, items, i);
        let k = choose|k: int|
            0 <= k < legs.len() && (#[trigger] legs[k]).tenant.0@ == items[i].tenant.0@
                && legs[k].members@.contains(i as usize);
        let m = choose|m: int|
            0 <= m < legs[k].members@.len() && legs[k].members@[m] == i as usize;
        (k, m)
    } else {
        (0, i)
    }
}

/// A batch is all or nothing: when it succeeds, every one of its intents went
/// through, all their events are among those handed out, and the events fit
/// together.
pub proof fn law_batches_are_all_or_nothing(
    r: BatchOutcome,
    kind: BatchKind,
    durable: bool,
    items: Seq<BatchItem>,
    w: BatchReplies,
    i: int,
    e: int,
)
    requires
        settled(r, kind, durable, items, w),
        r is Ok,
        w.outcomes@.len() == items.len(),
        0 <= i < items.len() <= usize::MAX,
    ensures
        goes_through(kind, w.outcomes@[i]),
        outcome_sound(kind, r->Ok_0@),
        0 <= e < w.outcomes@[i]->Ok_0@.len() ==> exists|g: int|
            0 <= g < r->Ok_0@.len() && (#[trigger] r->Ok_0@[g]).events@.contains(
                w.outcomes@[i]->Ok_0@[e],
            ),
{
    let legs = choose|legs: Seq<Leg>| #[trigger]
        legs_for(kind, legs, items) && ran(r, kind, durable, items, legs, w);
    let (k, m) = lemma_placed(kind, legs, items, i);
    assert(execution_of(w.outcomes@, legs, k, m) == w.outcomes@[i]);
    if 0 <= e < w.outcomes@[i]->Ok_0@.len() {
        lemma_gathered(w.outcomes@, legs[k].members@, m, e);
        assert(r->Ok_0@[k].events@.contains(w.outcomes@[i]->Ok_0@[e]));
    }
}

/// One execution that does not go through fails its whole batch.
pub proof fn law_one_failure_fails_the_batch(
    r: BatchOutcome,
    kind: BatchKind,
    durable: bool,
    items: Seq<BatchItem>,
    w: BatchReplies,
    i: int,
)
    requires
        settled(r, kind, durable, items, w),
        w.outcomes@.len() == items.len(),
        0 <= i < items.len() <= usize::MAX,
        !goes_through(kind, w.outcomes@[i]),
    ensures
        r is Err,
{
    if r is Ok {
        law_batches_are_all_or_nothing(r, kind, durable, items, w, i, 0);
    }
}

/// Replays gather no events.
proof fn lemma_replays_gather_nothing(outcomes: Seq<Outcome>, members: Seq<usize>)
    requires
        forall|m: int|
            0 <= m < members.len() ==> outcomes[(#[trigger] members[m]) as int]->Ok_0@.len() == 0,
    ensures
        gathered(outcomes, members).len() == 0,
    decreases members.len(),
{
    if members.len() > 0 {
        let rest = members.drop_last();
        assert forall|m: int| 0 <= m < rest.len() implies outcomes[(
        #[trigger] rest[m]) as int]->Ok_0@.len() == 0 by {
            assert(rest[m] == members[m]);
        }
        lemma_replays_gather_nothing(outcomes, rest);
        assert(outcomes[members[members.len() - 1] as int]->Ok_0@.len() == 0);
    }
}

/// A batch over several tenants fails when every intent of one tenant is a
/// replay: without events nothing ties that tenant's leg to the others. The
/// failure is an atomicity violation, unless the coordinator failed to begin.
/// A retry is refused rather than taken for a success.
pub proof fn law_a_replayed_leg_fails_the_batch(
    r: BatchOutcome,
    durable: bool,
    items: Seq<BatchItem>,
    w: BatchReplies,
    i: int,
)
    requires
        settled(r, BatchKind::CrossTenant, durable, items, w),
        0 <= i < items.len() <= usize::MAX,
        w.outcomes@.len() == items.len(),
        forall|j: int|
            0 <= j < items.len() && (#[trigger] items[j]).tenant.0@ == items[i].tenant.0@
                ==> w.outcomes@[j] is Ok && w.outcomes@[j]->Ok_0@.len() == 0,
    ensures
        r is Err,
        durable || w.begun is Ok ==> r->Err_0 is AtomicityViolation,
{
    let kind = BatchKind::CrossTenant;
    if startable(kind, items) && (durable || w.begun is Ok) {
        let legs = choose|legs: Seq<Leg>| #[trigger]
            legs_for(kind, legs, items) && ran(r, kind, durable, items, legs, w);
        if all_through(kind, w.outcomes@, legs) {
            let groups = choose|groups: Seq<TenantEventGroup>| #[trigger]
                assembled(groups, legs, w.outcomes@) && judged(r, kind, durable, groups, w);
            let (k, m) = lemma_placed(kind, legs, items, i);
            let members = legs[k].members@;
            lemma_members(items, legs[k].tenant.0@);
            assert(members == members_of_tenant(items, legs[k].tenant.0@));
            assert(items[members[m] as int].tenant.0@ == legs[k].tenant.0@);
            assert forall|j: int| 0 <= j < members.len() implies w.outcomes@[(
            #[trigger] members[j]) as int]->Ok_0@.len() == 0 by {
                assert(items[members[j] as int].tenant.0@ == items[i].tenant.0@);
            }
            lemma_replays_gather_nothing(w.outcomes@, members);
            assert(groups[k].events@ == gathered(w.outcomes@, members));
            assert(!outcome_sound(kind, groups));
        }
    }
}

} // verus!
