//! What the events of an accepted batch have in common, and what a batch owes.
use vstd::prelude::*;

use crate::domain::event::Event;
use crate::domain::intent::Intent;
use crate::executor::accepted::amount_or_zero;
use crate::executor::all_or_nothing::{
    all_through, assembled, execution_of, gathered, goes_through, has_member, judged,
    lemma_members, lemma_placed, ran, settled, BatchOutcome, BatchReplies,
};
use crate::executor::atomicity::{
    batch_sound, cross_tenant_sound, group, group_fault, leg_sound, legs_linked, misfit, misplaced,
    repeats_id, TenantEventGroup,
};
use crate::executor::batch::{
    all_empty, leg_tenants, legs_for, members_of_tenant, settlements, settles_trade, BatchItem,
    BatchKind, Leg,
};
use crate::executor::complete::Outcome;
use crate::executor::names::lemma_operation_names;
use crate::intent::validated::ValidatedIntent;
use crate::text::lemma_text_lt_irreflexive;

verus! {

/// The amount that the state before an event records.
pub open spec fn had(event: Event, field: Seq<char>) -> Option<u128> {
    amount_or_zero(event.before.state.payload@, field)
}

/// The amount that the state after an event records.
pub open spec fn has(event: Event, field: Seq<char>) -> Option<u128> {
    amount_or_zero(event.after.state.payload@, field)
}

/// Whether two events move an amount of one resource between them: what there
/// was in all there still is, and some of it changed hands.
pub open spec fn balance_out(a: Event, b: Event, field: Seq<char>) -> bool {
    &&& a.resource_id.0@ == b.resource_id.0@
    &&& had(a, field) is Some && has(a, field) is Some
    &&& had(b, field) is Some && has(b, field) is Some
    &&& had(a, field)->0 + had(b, field)->0 == has(a, field)->0 + has(b, field)->0
    &&& had(a, field) != has(a, field)
}

/// Whether two events are the two sides of one transfer.
pub open spec fn two_sides(a: Event, b: Event) -> bool {
    &&& a.operation.0@ == b.operation.0@
    &&& (a.operation.0@ == "stack.transfer"@ && balance_out(a, b, "quantity"@)) || (a.operation.0@
        == "balance.transfer"@ && balance_out(a, b, "balance"@))
}

/// Whether events fit together: each has an id of its own, all are of one
/// tenant, and those that share an intent are the two sides of a transfer.
pub open spec fn fit_together(events: Seq<Event>) -> bool {
    &&& forall|i: int, j: int|
        0 <= i < j < events.len() ==> (#[trigger] events[i]).event_id.0@ != (
        #[trigger] events[j]).event_id.0@
    &&& forall|i: int, j: int|
        0 <= i < j < events.len() ==> (#[trigger] events[i]).tenant_id.0@ == (
        #[trigger] events[j]).tenant_id.0@
    &&& forall|i: int, j: int|
        0 <= i < j < events.len() && (#[trigger] events[i]).intent_id.0@ == (
        #[trigger] events[j]).intent_id.0@ ==> two_sides(events[i], events[j])
    &&& forall|i: int, j: int, k: int|
        0 <= i < j < k < events.len() ==> !((#[trigger] events[i]).intent_id.0@ == (
        #[trigger] events[j]).intent_id.0@ && events[j].intent_id.0@ == (
        #[trigger] events[k]).intent_id.0@)
}

/// The events of an accepted batch fit together.
pub proof fn law_accepted_batches_fit_together(events: Seq<Event>)
    requires
        batch_sound(events),
    ensures
        fit_together(events),
{
    lemma_operation_names();
    assert forall|i: int, j: int| 0 <= i < j < events.len() implies (
    #[trigger] events[i]).event_id.0@ != (#[trigger] events[j]).event_id.0@ by {
        if events[i].event_id.0@ == events[j].event_id.0@ {
            assert(repeats_id(events, j));
            assert(misfit(events, j));
        }
    }
    assert forall|i: int, j: int| 0 <= i < j < events.len() implies (
    #[trigger] events[i]).tenant_id.0@ == (#[trigger] events[j]).tenant_id.0@ by {
        assert(!misfit(events, i));
        assert(!misfit(events, j));
    }
    assert forall|i: int, j: int|
        0 <= i < j < events.len() && (#[trigger] events[i]).intent_id.0@ == (
        #[trigger] events[j]).intent_id.0@ implies two_sides(events[i], events[j]) by {
        let id = events[i].intent_id.0@;
        lemma_two(events, id, i, j);
        assert(group_fault(events, id) is None);
    }
    assert forall|i: int, j: int, k: int| 0 <= i < j < k < events.len() implies !((
    #[trigger] events[i]).intent_id.0@ == (#[trigger] events[j]).intent_id.0@
        && events[j].intent_id.0@ == (#[trigger] events[k]).intent_id.0@) by {
        let id = events[i].intent_id.0@;
        if id == events[j].intent_id.0@ && id == events[k].intent_id.0@ {
            lemma_three(events, id, i, j, k);
            assert(group_fault(events, id) is None);
        }
    }
}

/// Conversely, events that fit together are accepted.
pub proof fn law_fitting_batches_are_accepted(events: Seq<Event>)
    requires
        fit_together(events),
    ensures
        batch_sound(events),
{
    lemma_operation_names();
    assert forall|i: int| !#[trigger] misfit(events, i) by {
        if 0 <= i < events.len() {
            if repeats_id(events, i) {
                let j = choose|j: int|
                    0 <= j < i && (#[trigger] events[j]).event_id.0@ == events[i].event_id.0@;
                assert(events[j].event_id.0@ != events[i].event_id.0@);
            }
            if i > 0 {
                assert(events[0].tenant_id.0@ == events[i].tenant_id.0@);
            }
        }
    }
    assert forall|id: Seq<char>| #[trigger] group_fault(events, id) is None by {
        let members = group(events, id);
        if members.len() >= 2 {
            let (i, j) = lemma_members_in_order(events, id, 0, 1);
            assert(two_sides(events[i], events[j]));
            if members.len() > 2 {
                let (a, b) = lemma_members_in_order(events, id, 1, 2);
                assert(a < j ==> events[a].event_id.0@ != events[j].event_id.0@);
                assert(j < a ==> events[j].event_id.0@ != events[a].event_id.0@);
                assert(a == j);
                assert(events[i].intent_id.0@ == events[j].intent_id.0@);
                assert(events[b].intent_id.0@ == id);
            }
        }
    }
}

/// The legs of a transaction across tenants are accepted exactly when each
/// leg's events belong to its tenant and fit together, and two tenants' legs
/// share an intent.
pub proof fn law_transactions_tie_tenants_together(groups: Seq<TenantEventGroup>)
    ensures
        cross_tenant_sound(groups) <==> {
            &&& forall|g: int|
                0 <= g < groups.len() ==> fit_together((#[trigger] groups[g]).events@)
            &&& forall|g: int, i: int|
                0 <= g < groups.len() && 0 <= i < groups[g].events@.len() ==> (
                #[trigger] groups[g].events@[i]).tenant_id.0@ == groups[g].tenant.0@
            &&& exists|g: int, h: int, i: int, j: int|
                0 <= g < groups.len() && 0 <= h < groups.len() && 0 <= i < groups[g].events@.len()
                    && 0 <= j < groups[h].events@.len() && groups[g].tenant.0@
                    != groups[h].tenant.0@ && (#[trigger] groups[g].events@[i]).intent_id.0@ == (
                #[trigger] groups[h].events@[j]).intent_id.0@
        },
{
    if cross_tenant_sound(groups) {
        assert forall|g: int| 0 <= g < groups.len() implies fit_together(
            (#[trigger] groups[g]).events@,
        ) by {
            assert(leg_sound(groups[g]));
            law_accepted_batches_fit_together(groups[g].events@);
        }
        assert forall|g: int, i: int|
            0 <= g < groups.len() && 0 <= i < groups[g].events@.len() implies (
        #[trigger] groups[g].events@[i]).tenant_id.0@ == groups[g].tenant.0@ by {
            assert(leg_sound(groups[g]));
            assert(!misplaced(groups[g], i));
        }
        let (a, b) = choose|a: int, b: int|
            0 <= a < groups.len() && 0 <= b < groups.len() && legs_linked(
                #[trigger] groups[a],
                #[trigger] groups[b],
            );
        let (i, j) = choose|i: int, j: int|
            0 <= i < groups[a].events@.len() && 0 <= j < groups[b].events@.len() && (
            #[trigger] groups[a].events@[i]).intent_id.0@ == (
            #[trigger] groups[b].events@[j]).intent_id.0@;
        assert(groups[a].events@[i].intent_id.0@ == groups[b].events@[j].intent_id.0@);
    }
    if forall|g: int| 0 <= g < groups.len() ==> fit_together((#[trigger] groups[g]).events@) {
        if forall|g: int, i: int|
            0 <= g < groups.len() && 0 <= i < groups[g].events@.len() ==> (
            #[trigger] groups[g].events@[i]).tenant_id.0@ == groups[g].tenant.0@ {
            assert forall|g: int| 0 <= g < groups.len() implies leg_sound(#[trigger] groups[g]) by {
                law_fitting_batches_are_accepted(groups[g].events@);
                assert forall|i: int| !#[trigger] misplaced(groups[g], i) by {
                    if 0 <= i < groups[g].events@.len() {
                        assert(groups[g].events@[i].tenant_id.0@ == groups[g].tenant.0@);
                    }
                }
            }
            if exists|g: int, h: int, i: int, j: int|
                0 <= g < groups.len() && 0 <= h < groups.len() && 0 <= i < groups[g].events@.len()
                    && 0 <= j < groups[h].events@.len() && groups[g].tenant.0@
                    != groups[h].tenant.0@ && (#[trigger] groups[g].events@[i]).intent_id.0@ == (
                #[trigger] groups[h].events@[j]).intent_id.0@ {
                let (g, h, i, j) = choose|g: int, h: int, i: int, j: int|
                    0 <= g < groups.len() && 0 <= h < groups.len() && 0 <= i
                        < groups[g].events@.len() && 0 <= j < groups[h].events@.len()
                        && groups[g].tenant.0@ != groups[h].tenant.0@ && (
                    #[trigger] groups[g].events@[i]).intent_id.0@ == (
                    #[trigger] groups[h].events@[j]).intent_id.0@;
                assert(legs_linked(groups[g], groups[h]));
            }
        }
    }
}

/// The events of executions, one after the other.
pub open spec fn in_turn(outcomes: Seq<Outcome>) -> Seq<Event>
    decreases outcomes.len(),
{
    if outcomes.len() == 0 {
        Seq::empty()
    } else {
        in_turn(outcomes.drop_last()) + outcomes.last()->Ok_0@
    }
}

/// A successful batch under one tenant hands out the events of all its intents,
/// one after the other, in one group of that tenant, and they fit together.
/// None of its executions failed; in a plain batch none was a replay.
pub proof fn law_one_tenant_batches_hand_out_everything(
    r: BatchOutcome,
    kind: BatchKind,
    durable: bool,
    items: Seq<BatchItem>,
    w: BatchReplies,
)
    requires
        settled(r, kind, durable, items, w),
        kind == BatchKind::Batch || kind == BatchKind::Settle,
        r is Ok,
        w.outcomes@.len() == items.len() <= usize::MAX,
    ensures
        items.len() > 0,
        r->Ok_0@.len() == 1,
        r->Ok_0@[0].tenant == items[0].tenant,
        r->Ok_0@[0].events@ == in_turn(w.outcomes@),
        fit_together(r->Ok_0@[0].events@),
        forall|i: int|
            0 <= i < items.len() ==> (#[trigger] w.outcomes@[i]) is Ok && (kind == BatchKind::Batch
                ==> w.outcomes@[i]->Ok_0@.len() > 0),
{
    let outcomes = w.outcomes@;
    let legs = choose|legs: Seq<Leg>| #[trigger]
        legs_for(kind, legs, items) && ran(r, kind, durable, items, legs, w);
    let groups = choose|groups: Seq<TenantEventGroup>| #[trigger]
        assembled(groups, legs, outcomes) && judged(r, kind, durable, groups, w);
    assert forall|i: int| 0 <= i < items.len() implies goes_through(
        kind,
        #[trigger] outcomes[i],
    ) by {
        assert(has_member(legs, 0, i));
        assert(execution_of(outcomes, legs, 0, i) == outcomes[i]);
    }
    assert(groups[0].events@ == gathered(outcomes, legs[0].members@));
    lemma_in_turn(outcomes, legs[0].members@);
    law_accepted_batches_fit_together(groups[0].events@);
}

/// A batch under one tenant whose executions all succeed, with events that fit
/// together, succeeds if the transaction and the sink do; a settlement needs a
/// favourable verdict as well.
pub proof fn law_fitting_executions_make_a_batch(
    r: BatchOutcome,
    kind: BatchKind,
    durable: bool,
    items: Seq<BatchItem>,
    w: BatchReplies,
)
    requires
        settled(r, kind, durable, items, w),
        kind == BatchKind::Batch || kind == BatchKind::Settle,
        w.outcomes@.len() == items.len() <= usize::MAX,
        items.len() > 0,
        forall|i: int|
            0 <= i < items.len() ==> (#[trigger] w.outcomes@[i]) is Ok
                && w.outcomes@[i]->Ok_0@.len() > 0,
        fit_together(in_turn(w.outcomes@)),
        kind == BatchKind::Settle ==> w.verdict is Ok,
        durable ==> w.persisted is Ok,
        !durable ==> w.begun is Ok && w.committed is Ok,
    ensures
        r is Ok,
{
    let outcomes = w.outcomes@;
    let legs = choose|legs: Seq<Leg>| #[trigger]
        legs_for(kind, legs, items) && ran(r, kind, durable, items, legs, w);
    assert forall|i: int, j: int| has_member(legs, i, j) implies goes_through(
        kind,
        #[trigger] execution_of(outcomes, legs, i, j),
    ) by {
        assert(legs[0].members@[j] == j);
        assert(outcomes[j] is Ok);
    }
    assert(all_through(kind, outcomes, legs));
    let groups = choose|groups: Seq<TenantEventGroup>| #[trigger]
        assembled(groups, legs, outcomes) && judged(r, kind, durable, groups, w);
    assert(groups[0].events@ == gathered(outcomes, legs[0].members@));
    lemma_in_turn(outcomes, legs[0].members@);
    law_fitting_batches_are_accepted(groups[0].events@);
}

/// A successful batch across tenants has intents of at least two, hands out one
/// group for each tenant and none for others, and every event that it hands out
/// comes from an intent of the group's tenant.
pub proof fn law_groups_are_of_their_tenants(
    r: BatchOutcome,
    kind: BatchKind,
    durable: bool,
    items: Seq<BatchItem>,
    w: BatchReplies,
)
    requires
        settled(r, kind, durable, items, w),
        kind == BatchKind::CrossTenant || kind == BatchKind::CrossTenantTrade,
        r is Ok,
        w.outcomes@.len() == items.len() <= usize::MAX,
    ensures
        exists|i: int, j: int|
            0 <= i < items.len() && 0 <= j < items.len() && (#[trigger] items[i]).tenant.0@ != (
            #[trigger] items[j]).tenant.0@,
        forall|g: int, h: int|
            0 <= g < h < r->Ok_0@.len() ==> (#[trigger] r->Ok_0@[g]).tenant.0@ != (
            #[trigger] r->Ok_0@[h]).tenant.0@,
        forall|i: int|
            0 <= i < items.len() ==> exists|g: int|
                0 <= g < r->Ok_0@.len() && (#[trigger] r->Ok_0@[g]).tenant.0@ == (
                #[trigger] items[i]).tenant.0@,
        forall|g: int, e: int|
            0 <= g < r->Ok_0@.len() && 0 <= e < r->Ok_0@[g].events@.len() ==> comes_from(
                #[trigger] r->Ok_0@[g].events@[e],
                r->Ok_0@[g].tenant.0@,
                items,
                w.outcomes@,
            ),
        forall|i: int| 0 <= i < items.len() ==> (#[trigger] w.outcomes@[i]) is Ok,
        kind == BatchKind::CrossTenant ==> {
            &&& forall|g: int|
                0 <= g < r->Ok_0@.len() ==> (#[trigger] r->Ok_0@[g]).events@.len() > 0
                    && fit_together(r->Ok_0@[g].events@)
            &&& forall|g: int, i: int|
                0 <= g < r->Ok_0@.len() && 0 <= i < r->Ok_0@[g].events@.len() ==> (
                #[trigger] r->Ok_0@[g].events@[i]).tenant_id.0@ == r->Ok_0@[g].tenant.0@
        },
{
    let outcomes = w.outcomes@;
    let legs = choose|legs: Seq<Leg>| #[trigger]
        legs_for(kind, legs, items) && ran(r, kind, durable, items, legs, w);
    let groups = choose|groups: Seq<TenantEventGroup>| #[trigger]
        assembled(groups, legs, outcomes) && judged(r, kind, durable, groups, w);
    assert(groups == r->Ok_0@);
    assert forall|g: int, h: int| 0 <= g < h < groups.len() implies (
    #[trigger] groups[g]).tenant.0@ != (#[trigger] groups[h]).tenant.0@ by {
        let names = leg_tenants(legs);
        assert(names[g] == legs[g].tenant.0@ && names[h] == legs[h].tenant.0@);
        lemma_text_lt_irreflexive(names[g]);
    }
    assert forall|i: int| 0 <= i < items.len() implies exists|g: int|
        0 <= g < groups.len() && (#[trigger] groups[g]).tenant.0@ == (
        #[trigger] items[i]).tenant.0@ by {
        let (k, m) = lemma_placed(kind, legs, items, i);
        lemma_members(items, legs[k].tenant.0@);
        assert(groups[k].tenant.0@ == items[i].tenant.0@);
    }
    assert forall|i: int| 0 <= i < items.len() implies (#[trigger] outcomes[i]) is Ok by {
        let (k, m) = lemma_placed(kind, legs, items, i);
        assert(execution_of(outcomes, legs, k, m) == outcomes[i]);
    }
    assert forall|g: int, e: int|
        0 <= g < groups.len() && 0 <= e < groups[g].events@.len() implies comes_from(
        #[trigger] groups[g].events@[e],
        groups[g].tenant.0@,
        items,
        outcomes,
    ) by {
        let members = members_of_tenant(items, legs[g].tenant.0@);
        assert(legs[g].members@ == members);
        lemma_members(items, legs[g].tenant.0@);
        lemma_gathered_from(outcomes, members, e);
        let m = choose|m: int|
            0 <= m < members.len() && outcomes[(#[trigger] members[m]) as int]->Ok_0@.contains(
                gathered(outcomes, members)[e],
            );
        assert(items[members[m] as int].tenant.0@ == legs[g].tenant.0@);
        assert(outcomes[members[m] as int]->Ok_0@.contains(groups[g].events@[e]));
    }
    if kind == BatchKind::CrossTenant {
        law_transactions_tie_tenants_together(groups);
    }
}

/// Whether an event comes from an execution of an intent of a tenant.
pub open spec fn comes_from(
    event: Event,
    tenant: Seq<char>,
    items: Seq<BatchItem>,
    outcomes: Seq<Outcome>,
) -> bool {
    exists|i: int|
        0 <= i < items.len() && (#[trigger] items[i]).tenant.0@ == tenant
            && outcomes[i]->Ok_0@.contains(event)
}

/// A batch that cannot be one is refused before anything runs: one under one
/// tenant without intents, and one across tenants with intents of one tenant
/// only.
pub proof fn law_batches_without_their_parts_are_refused(
    r: BatchOutcome,
    kind: BatchKind,
    durable: bool,
    items: Seq<BatchItem>,
    w: BatchReplies,
)
    requires
        settled(r, kind, durable, items, w),
        match kind {
            BatchKind::Batch | BatchKind::Settle => items.len() == 0,
            BatchKind::CrossTenant | BatchKind::CrossTenantTrade => forall|i: int, j: int|
                0 <= i < items.len() && 0 <= j < items.len() ==> (#[trigger] items[i]).tenant.0@
                    == (#[trigger] items[j]).tenant.0@,
        },
    ensures
        r is Err && r->Err_0 is AtomicityViolation,
{
}

/// What was not durably kept is not a success: a batch fails where its
/// transaction did not begin or was not committed, where the sink did not take
/// its events, and where the verdict on a settlement is unfavourable.
pub proof fn law_unkept_batches_fail(
    r: BatchOutcome,
    kind: BatchKind,
    durable: bool,
    items: Seq<BatchItem>,
    w: BatchReplies,
)
    requires
        settled(r, kind, durable, items, w),
        r is Ok,
    ensures
        !durable ==> w.begun is Ok && w.committed is Ok,
        durable ==> w.persisted is Ok || forall|g: int|
            0 <= g < r->Ok_0@.len() ==> (#[trigger] r->Ok_0@[g]).events@.len() == 0,
        kind == BatchKind::Settle || kind == BatchKind::CrossTenantTrade ==> w.verdict is Ok,
{
    let legs = choose|legs: Seq<Leg>| #[trigger]
        legs_for(kind, legs, items) && ran(r, kind, durable, items, legs, w);
    let groups = choose|groups: Seq<TenantEventGroup>| #[trigger]
        assembled(groups, legs, w.outcomes@) && judged(r, kind, durable, groups, w);
    if durable && w.persisted is Err {
        assert(all_empty(groups));
    }
}

proof fn lemma_in_turn(outcomes: Seq<Outcome>, members: Seq<usize>)
    requires
        members.len() == outcomes.len(),
        forall|i: int| 0 <= i < members.len() ==> #[trigger] members[i] == i,
    ensures
        gathered(outcomes, members) == in_turn(outcomes),
    decreases members.len(),
{
    if members.len() > 0 {
        let rest = members.drop_last();
        let short = outcomes.drop_last();
        assert forall|i: int| 0 <= i < rest.len() implies #[trigger] rest[i] == i by {
            assert(members[i] == i);
        }
        lemma_in_turn(short, rest);
        lemma_gathered_short(outcomes, rest);
        assert(members[members.len() - 1] == members.len() - 1);
    }
}

proof fn lemma_gathered_short(outcomes: Seq<Outcome>, members: Seq<usize>)
    requires
        outcomes.len() > 0,
        forall|i: int| 0 <= i < members.len() ==> #[trigger] members[i] < outcomes.len() - 1,
    ensures
        gathered(outcomes, members) == gathered(outcomes.drop_last(), members),
    decreases members.len(),
{
    if members.len() > 0 {
        let rest = members.drop_last();
        assert forall|i: int| 0 <= i < rest.len() implies #[trigger] rest[i] < outcomes.len()
            - 1 by {
            assert(members[i] == rest[i]);
        }
        lemma_gathered_short(outcomes, rest);
        assert(members[members.len() - 1] < outcomes.len() - 1);
    }
}

/// A gathered event comes from one of the members' executions.
proof fn lemma_gathered_from(outcomes: Seq<Outcome>, members: Seq<usize>, e: int)
    requires
        0 <= e < gathered(outcomes, members).len(),
    ensures
        exists|m: int|
            0 <= m < members.len() && outcomes[(#[trigger] members[m]) as int]->Ok_0@.contains(
                gathered(outcomes, members)[e],
            ),
    decreases members.len(),
{
    let rest = members.drop_last();
    let earlier = gathered(outcomes, rest);
    let last = outcomes[members.last() as int]->Ok_0@;
    let event = gathered(outcomes, members)[e];
    if e < earlier.len() {
        lemma_gathered_from(outcomes, rest, e);
        let m = choose|m: int|
            0 <= m < rest.len() && outcomes[(#[trigger] rest[m]) as int]->Ok_0@.contains(
                earlier[e],
            );
        assert(members[m] == rest[m]);
    } else {
        assert(last[e - earlier.len()] == event);
        assert(members[members.len() - 1] == members.last());
    }
}

// ---------------------------------------------------------------------------
// The events of an intent.
// ---------------------------------------------------------------------------
proof fn lemma_one(events: Seq<Event>, id: Seq<char>, i: int)
    requires
        0 <= i < events.len(),
        events[i].intent_id.0@ == id,
    ensures
        group(events, id).len() >= 1,
        group(events, id).len() == 1 ==> group(events, id)[0] == events[i],
    decreases events.len(),
{
    if i < events.len() - 1 {
        assert(events.drop_last()[i] == events[i]);
        lemma_one(events.drop_last(), id, i);
    }
}

pub proof fn lemma_two(events: Seq<Event>, id: Seq<char>, i: int, j: int)
    requires
        0 <= i < j < events.len(),
        events[i].intent_id.0@ == id,
        events[j].intent_id.0@ == id,
    ensures
        group(events, id).len() >= 2,
        group(events, id).len() == 2 ==> group(events, id)[0] == events[i] && group(events, id)[1]
            == events[j],
    decreases events.len(),
{
    let rest = events.drop_last();
    assert(rest[i] == events[i]);
    if j < events.len() - 1 {
        assert(rest[j] == events[j]);
        lemma_two(rest, id, i, j);
    } else {
        lemma_one(rest, id, i);
    }
}

proof fn lemma_three(events: Seq<Event>, id: Seq<char>, i: int, j: int, k: int)
    requires
        0 <= i < j < k < events.len(),
        events[i].intent_id.0@ == id,
        events[j].intent_id.0@ == id,
        events[k].intent_id.0@ == id,
    ensures
        group(events, id).len() >= 3,
    decreases events.len(),
{
    let rest = events.drop_last();
    assert(rest[i] == events[i] && rest[j] == events[j]);
    if k < events.len() - 1 {
        assert(rest[k] == events[k]);
        lemma_three(rest, id, i, j, k);
    } else {
        lemma_two(rest, id, i, j);
    }
}

/// Two members of an intent's group stand in the list in the same order.
pub proof fn lemma_members_in_order(events: Seq<Event>, id: Seq<char>, a: int, b: int) -> (places: (
    int,
    int,
))
    requires
        0 <= a < b < group(events, id).len(),
    ensures
        0 <= places.0 < places.1 < events.len(),
        events[places.0] == group(events, id)[a],
        events[places.1] == group(events, id)[b],
        events[places.0].intent_id.0@ == id,
        events[places.1].intent_id.0@ == id,
    decreases events.len(),
{
    let rest = events.drop_last();
    if events.last().intent_id.0@ == id && b == group(rest, id).len() {
        let i = lemma_member_place(rest, id, a);
        assert(rest[i] == events[i]);
        (i, events.len() - 1)
    } else {
        let (i, j) = lemma_members_in_order(rest, id, a, b);
        assert(rest[i] == events[i] && rest[j] == events[j]);
        (i, j)
    }
}

proof fn lemma_member_place(events: Seq<Event>, id: Seq<char>, a: int) -> (i: int)
    requires
        0 <= a < group(events, id).len(),
    ensures
        0 <= i < events.len(),
        events[i] == group(events, id)[a],
        events[i].intent_id.0@ == id,
    decreases events.len(),
{
    let rest = events.drop_last();
    if events.last().intent_id.0@ == id && a == group(rest, id).len() {
        events.len() - 1
    } else {
        let i = lemma_member_place(rest, id, a);
        assert(rest[i] == events[i]);
        i
    }
}

// ---------------------------------------------------------------------------
// The order of events, and the intents of a settlement.
// ---------------------------------------------------------------------------
/// The events of the executions of a tenant's intents, one after the other.
pub open spec fn in_turn_of(
    outcomes: Seq<Outcome>,
    items: Seq<BatchItem>,
    tenant: Seq<char>,
) -> Seq<Event>
    decreases items.len(),
{
    if items.len() == 0 {
        Seq::empty()
    } else {
        let earlier = in_turn_of(outcomes, items.drop_last(), tenant);
        if items.last().tenant.0@ == tenant {
            earlier + outcomes[items.len() - 1]->Ok_0@
        } else {
            earlier
        }
    }
}

/// The group of each tenant has the events of that tenant's intents, in the
/// order in which the intents were given.
pub proof fn law_groups_keep_the_order(
    r: BatchOutcome,
    kind: BatchKind,
    durable: bool,
    items: Seq<BatchItem>,
    w: BatchReplies,
    g: int,
)
    requires
        settled(r, kind, durable, items, w),
        kind == BatchKind::CrossTenant || kind == BatchKind::CrossTenantTrade,
        r is Ok,
        w.outcomes@.len() == items.len() <= usize::MAX,
        0 <= g < r->Ok_0@.len(),
    ensures
        r->Ok_0@[g].events@ == in_turn_of(w.outcomes@, items, r->Ok_0@[g].tenant.0@),
{
    let outcomes = w.outcomes@;
    let legs = choose|legs: Seq<Leg>| #[trigger]
        legs_for(kind, legs, items) && ran(r, kind, durable, items, legs, w);
    let groups = choose|groups: Seq<TenantEventGroup>| #[trigger]
        assembled(groups, legs, outcomes) && judged(r, kind, durable, groups, w);
    assert(groups[g].events@ == gathered(outcomes, legs[g].members@));
    lemma_in_turn_of(outcomes, items, legs[g].tenant.0@);
}

proof fn lemma_in_turn_of(outcomes: Seq<Outcome>, items: Seq<BatchItem>, tenant: Seq<char>)
    requires
        items.len() <= usize::MAX,
    ensures
        gathered(outcomes, members_of_tenant(items, tenant)) == in_turn_of(
            outcomes,
            items,
            tenant,
        ),
    decreases items.len(),
{
    if items.len() > 0 {
        let rest = items.drop_last();
        lemma_in_turn_of(outcomes, rest, tenant);
        let members = members_of_tenant(items, tenant);
        if items.last().tenant.0@ == tenant {
            assert(members.drop_last() =~= members_of_tenant(rest, tenant));
        }
    }
}

/// A settlement is checked against exactly those of its intents that settle a
/// trade.
pub proof fn law_settlements_are_the_settling_intents(intents: Seq<ValidatedIntent>, i: int)
    ensures
        0 <= i < intents.len() && intents[i].intent.operation.0@ == "trade.settle"@
            ==> settlements(intents).contains(intents[i].intent),
        forall|k: int|
            0 <= k < settlements(intents).len() ==> (
            #[trigger] settlements(intents)[k]).operation.0@ == "trade.settle"@ && exists|j: int|
                0 <= j < intents.len() && (#[trigger] intents[j]).intent == settlements(
                    intents,
                )[k],
{
    let all = intents.map_values(|validated: ValidatedIntent| validated.intent);
    let wanted = |intent: Intent| settles_trade(intent);
    assert(settlements(intents) == all.filter(wanted));
    if 0 <= i < intents.len() && intents[i].intent.operation.0@ == "trade.settle"@ {
        assert(all[i] == intents[i].intent);
        lemma_kept(all, wanted, i);
    }
    assert forall|k: int| 0 <= k < settlements(intents).len() implies (
    #[trigger] settlements(intents)[k]).operation.0@ == "trade.settle"@ && exists|j: int|
        0 <= j < intents.len() && (#[trigger] intents[j]).intent == settlements(intents)[k] by {
        let j = lemma_kept_from(all, wanted, k);
        assert(intents[j].intent == all[j]);
    }
}

proof fn lemma_kept<T>(list: Seq<T>, wanted: spec_fn(T) -> bool, i: int)
    requires
        0 <= i < list.len(),
        wanted(list[i]),
    ensures
        list.filter(wanted).contains(list[i]),
    decreases list.len(),
{
    reveal(Seq::filter);
    let kept = list.filter(wanted);
    let rest = list.drop_last();
    if i < rest.len() {
        assert(rest[i] == list[i]);
        lemma_kept(rest, wanted, i);
        let earlier = rest.filter(wanted);
        let m = choose|m: int| 0 <= m < earlier.len() && earlier[m] == list[i];
        assert(kept[m] == list[i]);
    } else {
        assert(kept[kept.len() - 1] == list[i]);
    }
}

proof fn lemma_kept_from<T>(list: Seq<T>, wanted: spec_fn(T) -> bool, k: int) -> (i: int)
    requires
        0 <= k < list.filter(wanted).len(),
    ensures
        0 <= i < list.len(),
        list[i] == list.filter(wanted)[k],
        wanted(list[i]),
    decreases list.len(),
{
    reveal(Seq::filter);
    let rest = list.drop_last();
    if wanted(list.last()) && k == rest.filter(wanted).len() {
        list.len() - 1
    } else {
        let i = lemma_kept_from(rest, wanted, k);
        assert(rest[i] == list[i]);
        i
    }
}

} // verus!
