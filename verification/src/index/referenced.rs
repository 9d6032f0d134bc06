//! What a batch leaves behind in the records of the trades that it names.
use vstd::prelude::*;

use crate::domain::commit::{CommitRef, ScopeKind};
use crate::domain::event::Event;
use crate::domain::state::{ResourceState, StateType};
use crate::executor::atomicity::group;
use crate::executor::names::lemma_operation_names;
use crate::index::builder::{
    after_locks, after_settles, after_trades, after_unlocks, batch_legs, commit_kept, concerned,
    ingested, nameless, of_trade, record_of, stuck, trade_events, trade_named,
    with_legs, IngestBatch,
};
use crate::index::error::IndexError;
use crate::index::history::{event_at, unresolved, EventsById};
use crate::index::laws::{lemma_in_order_members, lemma_legs_keep_sides};
use crate::index::order::in_order;
use crate::index::trade::{LegContent, RecordContent, RefContent, TradeRecord, TradeStatus};
use crate::index::value::{
    declaration_lt, declarations, intents_of, leg_key_lt, legs_merged, moves_value, pair_complaint, pair_lt,
    pairs_along, pairs_in, pairs_sound, DeclarationContent, PairContent,
};
use crate::json::{member, Json};
use crate::text::distinct;

verus! {

/// Whether a state is that of a unique asset that a trade holds.
pub open spec fn holds_for(state: ResourceState, trade_id: Seq<char>) -> bool {
    &&& state.state_type == StateType::UniqueAsset
    &&& trade_id.len() > 0
    &&& member(state.payload@, "trade_id"@) == Some(Json::Str(trade_id))
}

/// Whether an event locks an asset into a trade.
pub open spec fn is_lock(event: Event, trade_id: Seq<char>) -> bool {
    event.operation.0@ == "trade.lock"@ && holds_for(event.after.state, trade_id)
}

/// Whether an event settles an asset of a trade.
pub open spec fn is_settlement(event: Event, trade_id: Seq<char>) -> bool {
    event.operation.0@ == "trade.settle"@ && holds_for(event.before.state, trade_id)
}

/// Whether an event releases an asset from a trade.
pub open spec fn is_release(event: Event, trade_id: Seq<char>) -> bool {
    event.operation.0@ == "trade.unlock"@ && holds_for(event.before.state, trade_id)
}

/// A reference for each of the events, with the tenant, the id and the
/// operation that the event has.
pub open spec fn own_references(events: Seq<Event>) -> Seq<RefContent> {
    events.map_values(
        |event: Event|
            RefContent {
                event_id: event.event_id.0@,
                tenant_id: event.tenant_id.0@,
                operation: event.operation.0@,
            },
    )
}

/// The references that a batch's locks, settlements and releases of a trade
/// are owed.
pub open spec fn owed(events: Seq<Event>, trade_id: Seq<char>) -> Seq<RefContent> {
    own_references(events.filter(|event: Event| is_lock(event, trade_id))) + own_references(
        events.filter(|event: Event| is_settlement(event, trade_id)),
    ) + own_references(events.filter(|event: Event| is_release(event, trade_id)))
}

/// The references that a record had.
pub open spec fn earlier_references(
    before: Map<Seq<char>, RecordContent>,
    trade_id: Seq<char>,
) -> Seq<RefContent> {
    if before.contains_key(trade_id) {
        before[trade_id].events
    } else {
        Seq::empty()
    }
}

/// Whether a reference is to one of two events of one intent, under the tenant
/// of the other or its own.
pub open spec fn moves_for(reference: RefContent, events: Seq<Event>, i: int, j: int) -> bool {
    &&& 0 <= i < events.len()
    &&& 0 <= j < events.len()
    &&& events[i].intent_id.0@ == events[j].intent_id.0@
    &&& reference.event_id == events[i].event_id.0@
    &&& reference.tenant_id == events[j].tenant_id.0@
    &&& reference.operation == "balance.transfer"@
}

/// Whether a reference is to an event of a transfer that the batch holds.
pub open spec fn of_a_transfer(reference: RefContent, events: Seq<Event>) -> bool {
    exists|i: int, j: int| #[trigger] moves_for(reference, events, i, j)
}

/// After a successful ingest, a trade's record has the references that it had,
/// then one for each lock, settlement and release of the trade in the batch,
/// with that event's own tenant, id and operation, and after those only
/// references to transfers of the batch.
pub proof fn law_references_name_the_events_themselves(
    before: Map<Seq<char>, RecordContent>,
    after: Map<Seq<char>, RecordContent>,
    batch: IngestBatch,
    trade_id: Seq<char>,
)
    requires
        ingested(Ok(()), before, after, batch),
    ensures
        before.contains_key(trade_id) || owed(batch.events@, trade_id).len() > 0
            ==> after.contains_key(trade_id),
        after.contains_key(trade_id) ==> {
            let start = earlier_references(before, trade_id) + owed(batch.events@, trade_id);
            &&& after[trade_id].trade_id == if before.contains_key(trade_id) {
                before[trade_id].trade_id
            } else {
                trade_id
            }
            &&& start.len() <= after[trade_id].events.len()
            &&& after[trade_id].events.take(start.len() as int) == start
            &&& forall|k: int|
                start.len() <= k < after[trade_id].events.len() ==> of_a_transfer(
                    #[trigger] after[trade_id].events[k],
                    batch.events@,
                )
        },
{
    let events = batch.events@;
    let commit = commit_kept(batch.commit);
    let middle = after_trades(before, events, commit);
    let named = trade_events(events, trade_id);
    let record = record_of(before, trade_id);
    let legs = batch_legs(batch);
    assert(!stuck(before, events, commit, trade_id));
    lemma_owed_lock(record, events, trade_id);
    let locked = after_locks(record, named);
    lemma_owed_settlement(locked, events, trade_id, commit);
    let settled = after_settles(locked, named, commit).0;
    lemma_owed_release(settled, events, trade_id);
    lemma_owed_to_concerned(events, trade_id);
    let start = earlier_references(before, trade_id) + owed(events, trade_id);
    if after.contains_key(trade_id) {
        let base = record_of(middle, trade_id);
        if concerned(events, trade_id) {
            assert(base.events == start);
        } else {
            assert(base.events =~= start);
        }
        assert forall|i: int| 0 <= i < legs.len() implies traced(
            (#[trigger] legs[i]).1,
            events,
        ) by {
            lemma_batch_leg_traced(batch, i);
        }
        lemma_legs_traced(base, legs, trade_id, events);
    }
}

/// Where a store holds every event of a batch under its own tenant and id, and
/// the events of one intent belong to one tenant, every reference that the
/// batch adds to a record can be resolved: the trade's history can be
/// reconstructed if it could be before.
pub proof fn law_histories_resolve_after_a_batch(
    before: Map<Seq<char>, RecordContent>,
    after: Map<Seq<char>, RecordContent>,
    batch: IngestBatch,
    trade_id: Seq<char>,
    store: EventsById,
)
    requires
        ingested(Ok(()), before, after, batch),
        after.contains_key(trade_id),
        forall|i: int|
            0 <= i < batch.events@.len() ==> event_at(
                store,
                (#[trigger] batch.events@[i]).tenant_id.0@,
                batch.events@[i].event_id.0@,
            ) is Some,
        forall|i: int, j: int|
            0 <= i < batch.events@.len() && 0 <= j < batch.events@.len() && (
            #[trigger] batch.events@[i]).intent_id.0@ == (
            #[trigger] batch.events@[j]).intent_id.0@ ==> batch.events@[i].tenant_id.0@
                == batch.events@[j].tenant_id.0@,
        before.contains_key(trade_id) ==> forall|k: int|
            !#[trigger] unresolved(before[trade_id], store, k),
    ensures
        forall|k: int| !#[trigger] unresolved(after[trade_id], store, k),
{
    let events = batch.events@;
    let refs = after[trade_id].events;
    let earlier = earlier_references(before, trade_id);
    let start = earlier + owed(events, trade_id);
    law_references_name_the_events_themselves(before, after, batch, trade_id);
    assert forall|k: int| !#[trigger] unresolved(after[trade_id], store, k) by {
        if 0 <= k < refs.len() {
            if k < earlier.len() {
                assert(refs.take(start.len() as int)[k] == earlier[k]);
                assert(!unresolved(before[trade_id], store, k));
            } else if k < start.len() {
                assert(refs.take(start.len() as int)[k] == refs[k]);
                assert(refs[k] == owed(events, trade_id)[k - earlier.len()]);
                lemma_owed_within(events, trade_id, k - earlier.len());
                let i = choose|i: int|
                    0 <= i < events.len() && refs[k].event_id == (
                    #[trigger] events[i]).event_id.0@ && refs[k].tenant_id
                        == events[i].tenant_id.0@;
                assert(event_at(store, events[i].tenant_id.0@, events[i].event_id.0@) is Some);
            } else {
                assert(of_a_transfer(refs[k], events));
                let (i, j) = choose|i: int, j: int| #[trigger] moves_for(refs[k], events, i, j);
                assert(events[i].tenant_id.0@ == events[j].tenant_id.0@);
                assert(event_at(store, events[i].tenant_id.0@, events[i].event_id.0@) is Some);
            }
        }
    }
}

/// The status of a trade after a successful ingest: cancelled where the batch
/// releases an asset of it, settled where the batch settles one otherwise, open
/// where it only locks one, and as it was where it does none of these.
pub proof fn law_status_follows_the_batch(
    before: Map<Seq<char>, RecordContent>,
    after: Map<Seq<char>, RecordContent>,
    batch: IngestBatch,
    trade_id: Seq<char>,
)
    requires
        ingested(Ok(()), before, after, batch),
        after.contains_key(trade_id),
    ensures
        ({
            let events = batch.events@;
            after[trade_id].status == if exists|i: int|
                0 <= i < events.len() && is_release(#[trigger] events[i], trade_id) {
                TradeStatus::Cancelled
            } else if exists|i: int|
                0 <= i < events.len() && is_settlement(#[trigger] events[i], trade_id) {
                TradeStatus::Settled
            } else if exists|i: int|
                0 <= i < events.len() && is_lock(#[trigger] events[i], trade_id) {
                TradeStatus::Open
            } else if before.contains_key(trade_id) {
                before[trade_id].status
            } else {
                TradeStatus::Open
            }
        }),
{
    let events = batch.events@;
    let commit = commit_kept(batch.commit);
    let middle = after_trades(before, events, commit);
    let named = trade_events(events, trade_id);
    let record = record_of(before, trade_id);
    assert(!stuck(before, events, commit, trade_id));
    lemma_lock_status(record, events, trade_id);
    let locked = after_locks(record, named);
    lemma_settlement_status(locked, events, trade_id, commit);
    let settled = after_settles(locked, named, commit).0;
    lemma_release_status(settled, events, trade_id);
    lemma_named(events, trade_id);
    lemma_legs_keep_sides(record_of(middle, trade_id), batch_legs(batch), trade_id);
    if !concerned(events, trade_id) {
        assert(forall|i: int|
            0 <= i < events.len() ==> trade_named(#[trigger] events[i]) != Some(trade_id));
    }
}

/// A batch that is not pinned by a tenant's commit, or that has a trade event
/// without a trade, is refused, and the index stays as it was.
pub proof fn law_unfit_batches_change_nothing(
    r: Result<(), IndexError>,
    before: Map<Seq<char>, RecordContent>,
    after: Map<Seq<char>, RecordContent>,
    batch: IngestBatch,
    i: int,
)
    requires
        ingested(r, before, after, batch),
    ensures
        batch.commit.body.scope.kind != ScopeKind::Tenant
            || batch.commit.body.scope.tenant_id is None ==> r is Err && after == before,
        0 <= i < batch.events@.len() && {
            let event = batch.events@[i];
            let op = event.operation.0@;
            (op == "trade.lock"@ && !exists|t: Seq<char>| holds_for(event.after.state, t)) || ((op
                == "trade.settle"@ || op == "trade.unlock"@) && !exists|t: Seq<char>|
                holds_for(event.before.state, t))
        } ==> r is Err && after == before,
{
    lemma_operation_names();
    if 0 <= i < batch.events@.len() {
        let event = batch.events@[i];
        if let Some(t) = trade_named(event) {
            assert(event.operation.0@ == "trade.lock"@ ==> holds_for(event.after.state, t));
            assert(event.operation.0@ != "trade.lock"@ ==> holds_for(event.before.state, t));
        } else {
            assert(of_trade(event) ==> nameless(batch.events@[i]));
        }
    }
}

/// What a record's contents show is what its fields hold.
pub proof fn law_contents_show_the_fields(record: TradeRecord)
    ensures
        record@.trade_id == record.trade_id@,
        record@.status == record.status,
        record@.events.len() == record.events@.len(),
        forall|k: int|
            0 <= k < record.events@.len() ==> {
                let shown = #[trigger] record@.events[k];
                let held = record.events@[k];
                &&& shown.event_id == held.event_id.0@
                &&& shown.tenant_id == held.tenant_id.0@
                &&& shown.operation == held.operation.0@
            },
        record@.sides.len() == record.sides@.len(),
        forall|k: int|
            0 <= k < record.sides@.len() ==> {
                let shown = #[trigger] record@.sides[k];
                let held = record.sides@[k];
                &&& shown.tenant == held.tenant.0@
                &&& shown.from_owner == held.from_owner@
                &&& shown.to_owner == held.to_owner@
                &&& shown.commit == held.settle_commit
                &&& shown.commits == held.settle_commits_by_asset@
            },
        record@.legs.len() == record.value_legs@.len(),
        forall|k: int|
            0 <= k < record.value_legs@.len() ==> {
                let shown = #[trigger] record@.legs[k];
                let held = record.value_legs@[k];
                &&& shown.resource == held.resource.0@
                &&& shown.amount == held.amount@
                &&& shown.to_subject == held.to_subject.0@
                &&& shown.tenant == held.tenant.0@
                &&& shown.commit == held.commit
            },
{
}

// ---------------------------------------------------------------------------
// The references of locks, settlements and releases.
// ---------------------------------------------------------------------------
/// An event names a trade exactly when it locks, settles or releases an asset
/// of it; no event does two of these.
pub proof fn lemma_named(events: Seq<Event>, trade_id: Seq<char>)
    ensures
        forall|event: Event|
            #[trigger] trade_named(event) == Some(trade_id) <==> is_lock(event, trade_id)
                || is_settlement(event, trade_id) || is_release(event, trade_id),
        forall|event: Event| #[trigger] is_lock(event, trade_id) ==> !is_settlement(event, trade_id)
            && !is_release(event, trade_id),
        forall|event: Event| #[trigger]
            is_settlement(event, trade_id) ==> !is_release(event, trade_id),
{
    lemma_operation_names();
}

pub proof fn lemma_owed_lock(record: RecordContent, events: Seq<Event>, trade_id: Seq<char>)
    ensures
        ({
            let r = after_locks(record, trade_events(events, trade_id));
            &&& r.events == record.events + own_references(
                events.filter(|event: Event| is_lock(event, trade_id)),
            )
            &&& r.trade_id == record.trade_id
            &&& r.legs == record.legs
            &&& r.sides == record.sides
        }),
    decreases events.len(),
{
    let wanted = |event: Event| is_lock(event, trade_id);
    reveal(Seq::filter);
    lemma_named(events, trade_id);
    lemma_operation_names();
    if events.len() > 0 {
        lemma_owed_lock(record, events.drop_last(), trade_id);
        let last = events.last();
        lemma_named_last(events, trade_id);
        lemma_references_push(events.drop_last().filter(wanted), last);
        assert(record.events + own_references(events.filter(wanted)) =~= if wanted(last) {
            (record.events + own_references(events.drop_last().filter(wanted))).push(
                own_reference(last),
            )
        } else {
            record.events + own_references(events.drop_last().filter(wanted))
        });
    } else {
        assert(record.events + own_references(events.filter(wanted)) =~= record.events);
    }
}

/// The reference to an event.
spec fn own_reference(event: Event) -> RefContent {
    RefContent {
        event_id: event.event_id.0@,
        tenant_id: event.tenant_id.0@,
        operation: event.operation.0@,
    }
}

proof fn lemma_references_push(events: Seq<Event>, event: Event)
    ensures
        own_references(events.push(event)) == own_references(events).push(own_reference(event)),
{
    assert(own_references(events.push(event)) =~= own_references(events).push(
        own_reference(event),
    ));
}

/// The events of a trade, with one more event.
pub proof fn lemma_named_last(events: Seq<Event>, trade_id: Seq<char>)
    requires
        events.len() > 0,
    ensures
        ({
            let named = trade_events(events, trade_id);
            let earlier = trade_events(events.drop_last(), trade_id);
            if trade_named(events.last()) == Some(trade_id) {
                named.len() > 0 && named.drop_last() == earlier && named.last() == events.last()
            } else {
                named == earlier
            }
        }),
{
    let named = trade_events(events, trade_id);
    if trade_named(events.last()) == Some(trade_id) {
        assert(named.drop_last() =~= trade_events(events.drop_last(), trade_id));
    }
}

pub proof fn lemma_owed_settlement(
    record: RecordContent,
    events: Seq<Event>,
    trade_id: Seq<char>,
    commit: CommitRef,
)
    ensures
        ({
            let r = after_settles(record, trade_events(events, trade_id), commit);
            r.1 ==> {
                &&& r.0.events == record.events + own_references(
                    events.filter(|event: Event| is_settlement(event, trade_id)),
                )
                &&& r.0.trade_id == record.trade_id
                &&& r.0.legs == record.legs
            }
        }),
    decreases events.len(),
{
    let wanted = |event: Event| is_settlement(event, trade_id);
    reveal(Seq::filter);
    lemma_named(events, trade_id);
    lemma_operation_names();
    if events.len() > 0 {
        lemma_owed_settlement(record, events.drop_last(), trade_id, commit);
        let last = events.last();
        lemma_named_last(events, trade_id);
        lemma_references_push(events.drop_last().filter(wanted), last);
        assert(record.events + own_references(events.filter(wanted)) =~= if wanted(last) {
            (record.events + own_references(events.drop_last().filter(wanted))).push(
                own_reference(last),
            )
        } else {
            record.events + own_references(events.drop_last().filter(wanted))
        });
    } else {
        assert(record.events + own_references(events.filter(wanted)) =~= record.events);
    }
}

pub proof fn lemma_owed_release(record: RecordContent, events: Seq<Event>, trade_id: Seq<char>)
    ensures
        ({
            let r = after_unlocks(record, trade_events(events, trade_id));
            &&& r.events == record.events + own_references(
                events.filter(|event: Event| is_release(event, trade_id)),
            )
            &&& r.trade_id == record.trade_id
            &&& r.legs == record.legs
            &&& r.sides == record.sides
        }),
    decreases events.len(),
{
    let wanted = |event: Event| is_release(event, trade_id);
    reveal(Seq::filter);
    lemma_named(events, trade_id);
    lemma_operation_names();
    if events.len() > 0 {
        lemma_owed_release(record, events.drop_last(), trade_id);
        let last = events.last();
        lemma_named_last(events, trade_id);
        lemma_references_push(events.drop_last().filter(wanted), last);
        assert(record.events + own_references(events.filter(wanted)) =~= if wanted(last) {
            (record.events + own_references(events.drop_last().filter(wanted))).push(
                own_reference(last),
            )
        } else {
            record.events + own_references(events.drop_last().filter(wanted))
        });
    } else {
        assert(record.events + own_references(events.filter(wanted)) =~= record.events);
    }
}

/// A batch that owes a trade references concerns it, and the other way round.
proof fn lemma_owed_to_concerned(events: Seq<Event>, trade_id: Seq<char>)
    ensures
        owed(events, trade_id).len() > 0 <==> concerned(events, trade_id),
{
    lemma_named(events, trade_id);
    let locks = |event: Event| is_lock(event, trade_id);
    let settlements = |event: Event| is_settlement(event, trade_id);
    let releases = |event: Event| is_release(event, trade_id);
    if concerned(events, trade_id) {
        let i = choose|i: int|
            0 <= i < events.len() && trade_named(#[trigger] events[i]) == Some(trade_id);
        if locks(events[i]) {
            lemma_filter_has(events, locks, i);
        } else if settlements(events[i]) {
            lemma_filter_has(events, settlements, i);
        } else {
            lemma_filter_has(events, releases, i);
        }
    }
    if owed(events, trade_id).len() > 0 {
        lemma_owed_within(events, trade_id, 0);
        let i = choose|i: int|
            0 <= i < events.len() && owed(events, trade_id)[0].event_id == (
            #[trigger] events[i]).event_id.0@ && owed(events, trade_id)[0].tenant_id
                == events[i].tenant_id.0@ && trade_named(events[i]) == Some(trade_id);
        assert(trade_named(events[i]) == Some(trade_id));
    }
}

proof fn lemma_filter_has(events: Seq<Event>, wanted: spec_fn(Event) -> bool, i: int)
    requires
        0 <= i < events.len(),
        wanted(events[i]),
    ensures
        events.filter(wanted).len() > 0,
    decreases events.len(),
{
    reveal(Seq::filter);
    if i < events.len() - 1 {
        assert(events.drop_last()[i] == events[i]);
        lemma_filter_has(events.drop_last(), wanted, i);
    }
}

proof fn lemma_filter_within(events: Seq<Event>, wanted: spec_fn(Event) -> bool, k: int) -> (i: int)
    requires
        0 <= k < events.filter(wanted).len(),
    ensures
        0 <= i < events.len(),
        events[i] == events.filter(wanted)[k],
        wanted(events[i]),
    decreases events.len(),
{
    reveal(Seq::filter);
    let rest = events.drop_last();
    if wanted(events.last()) && k == rest.filter(wanted).len() {
        events.len() - 1
    } else {
        let i = lemma_filter_within(rest, wanted, k);
        assert(rest[i] == events[i]);
        i
    }
}

/// A reference that a batch owes is to one of its events.
proof fn lemma_owed_within(events: Seq<Event>, trade_id: Seq<char>, k: int)
    requires
        0 <= k < owed(events, trade_id).len(),
    ensures
        exists|i: int|
            0 <= i < events.len() && owed(events, trade_id)[k].event_id == (
            #[trigger] events[i]).event_id.0@ && owed(events, trade_id)[k].tenant_id
                == events[i].tenant_id.0@ && trade_named(events[i]) == Some(trade_id),
{
    lemma_named(events, trade_id);
    let locks = |event: Event| is_lock(event, trade_id);
    let settlements = |event: Event| is_settlement(event, trade_id);
    let releases = |event: Event| is_release(event, trade_id);
    let a = events.filter(locks);
    let b = events.filter(settlements);
    let c = events.filter(releases);
    if k < a.len() {
        let i = lemma_filter_within(events, locks, k);
        assert(owed(events, trade_id)[k] == own_reference(events[i]));
    } else if k < a.len() + b.len() {
        let i = lemma_filter_within(events, settlements, k - a.len());
        assert(owed(events, trade_id)[k] == own_reference(events[i]));
    } else {
        let i = lemma_filter_within(events, releases, k - a.len() - b.len());
        assert(owed(events, trade_id)[k] == own_reference(events[i]));
    }
}

// ---------------------------------------------------------------------------
// The status.
// ---------------------------------------------------------------------------
proof fn lemma_lock_status(record: RecordContent, events: Seq<Event>, trade_id: Seq<char>)
    ensures
        after_locks(record, trade_events(events, trade_id)).status == if exists|i: int|
            0 <= i < events.len() && is_lock(#[trigger] events[i], trade_id) {
            TradeStatus::Open
        } else {
            record.status
        },
    decreases events.len(),
{
    lemma_named(events, trade_id);
    lemma_operation_names();
    if events.len() > 0 {
        let rest = events.drop_last();
        lemma_lock_status(record, rest, trade_id);
        lemma_named_last(events, trade_id);
        assert(events[events.len() - 1] == events.last());
        assert(forall|i: int| 0 <= i < rest.len() ==> rest[i] == #[trigger] events[i]);
        if exists|i: int| 0 <= i < rest.len() && is_lock(#[trigger] rest[i], trade_id) {
            let i = choose|i: int| 0 <= i < rest.len() && is_lock(#[trigger] rest[i], trade_id);
            assert(is_lock(events[i], trade_id));
        }
        if exists|i: int| 0 <= i < events.len() && is_lock(#[trigger] events[i], trade_id) {
            let i = choose|i: int|
                0 <= i < events.len() && is_lock(#[trigger] events[i], trade_id);
            if i < rest.len() {
                assert(is_lock(rest[i], trade_id));
            }
        }
    }
}

proof fn lemma_settlement_status(
    record: RecordContent,
    events: Seq<Event>,
    trade_id: Seq<char>,
    commit: CommitRef,
)
    ensures
        ({
            let r = after_settles(record, trade_events(events, trade_id), commit);
            r.1 ==> r.0.status == if exists|i: int|
                0 <= i < events.len() && is_settlement(#[trigger] events[i], trade_id) {
                TradeStatus::Settled
            } else {
                record.status
            }
        }),
    decreases events.len(),
{
    lemma_named(events, trade_id);
    lemma_operation_names();
    if events.len() > 0 {
        let rest = events.drop_last();
        lemma_settlement_status(record, rest, trade_id, commit);
        lemma_named_last(events, trade_id);
        assert(events[events.len() - 1] == events.last());
        assert(forall|i: int| 0 <= i < rest.len() ==> rest[i] == #[trigger] events[i]);
        if exists|i: int| 0 <= i < rest.len() && is_settlement(#[trigger] rest[i], trade_id) {
            let i = choose|i: int|
                0 <= i < rest.len() && is_settlement(#[trigger] rest[i], trade_id);
            assert(is_settlement(events[i], trade_id));
        }
        if exists|i: int| 0 <= i < events.len() && is_settlement(#[trigger] events[i], trade_id) {
            let i = choose|i: int|
                0 <= i < events.len() && is_settlement(#[trigger] events[i], trade_id);
            if i < rest.len() {
                assert(is_settlement(rest[i], trade_id));
            }
        }
    }
}

proof fn lemma_release_status(record: RecordContent, events: Seq<Event>, trade_id: Seq<char>)
    ensures
        after_unlocks(record, trade_events(events, trade_id)).status == if exists|i: int|
            0 <= i < events.len() && is_release(#[trigger] events[i], trade_id) {
            TradeStatus::Cancelled
        } else {
            record.status
        },
    decreases events.len(),
{
    lemma_named(events, trade_id);
    lemma_operation_names();
    if events.len() > 0 {
        let rest = events.drop_last();
        lemma_release_status(record, rest, trade_id);
        lemma_named_last(events, trade_id);
        assert(events[events.len() - 1] == events.last());
        assert(forall|i: int| 0 <= i < rest.len() ==> rest[i] == #[trigger] events[i]);
        if exists|i: int| 0 <= i < rest.len() && is_release(#[trigger] rest[i], trade_id) {
            let i = choose|i: int| 0 <= i < rest.len() && is_release(#[trigger] rest[i], trade_id);
            assert(is_release(events[i], trade_id));
        }
        if exists|i: int| 0 <= i < events.len() && is_release(#[trigger] events[i], trade_id) {
            let i = choose|i: int|
                0 <= i < events.len() && is_release(#[trigger] events[i], trade_id);
            if i < rest.len() {
                assert(is_release(rest[i], trade_id));
            }
        }
    }
}

// ---------------------------------------------------------------------------
// The references of value legs.
// ---------------------------------------------------------------------------
/// Whether the references of a value leg are to transfers among the events.
spec fn traced(leg: LegContent, events: Seq<Event>) -> bool {
    forall|j: int|
        0 <= j < leg.event_ids.len() ==> of_a_transfer(
            RefContent {
                event_id: #[trigger] leg.event_ids[j],
                tenant_id: leg.tenant,
                operation: "balance.transfer"@,
            },
            events,
        )
}

/// The references of a pair of events of one intent are to those events.
proof fn lemma_pair_traced(events: Seq<Event>, intent_ids: Seq<Seq<char>>, pair: PairContent)
    requires
        pairs_sound(events),
        pairs_along(events, intent_ids).contains(pair),
    ensures
        forall|j: int|
            0 <= j < pair.event_ids.len() ==> of_a_transfer(
                RefContent {
                    event_id: #[trigger] pair.event_ids[j],
                    tenant_id: pair.tenant,
                    operation: "balance.transfer"@,
                },
                events,
            ),
    decreases intent_ids.len(),
{
    let list = pairs_along(events, intent_ids);
    let k = choose|k: int| 0 <= k < list.len() && list[k] == pair;
    let id = intent_ids.last();
    let earlier = pairs_along(events, intent_ids.drop_last());
    if k < earlier.len() {
        assert(earlier[k] == pair);
        lemma_pair_traced(events, intent_ids.drop_last(), pair);
    } else {
        assert(moves_value(events, id));
        assert(pair_complaint(events, id) is None);
        let a = lemma_group_within(events, id, 0);
        let b = lemma_group_within(events, id, 1);
        assert forall|j: int| 0 <= j < pair.event_ids.len() implies of_a_transfer(
            RefContent {
                event_id: #[trigger] pair.event_ids[j],
                tenant_id: pair.tenant,
                operation: "balance.transfer"@,
            },
            events,
        ) by {
            let reference = RefContent {
                event_id: pair.event_ids[j],
                tenant_id: pair.tenant,
                operation: "balance.transfer"@,
            };
            if pair.event_ids[j] == events[a].event_id.0@ {
                assert(moves_for(reference, events, a, a));
            } else {
                assert(moves_for(reference, events, b, a));
            }
        }
    }
}

/// The events of an intent are events of the list, and of that intent.
pub proof fn lemma_group_within(events: Seq<Event>, intent_id: Seq<char>, k: int) -> (i: int)
    requires
        0 <= k < group(events, intent_id).len(),
    ensures
        0 <= i < events.len(),
        events[i] == group(events, intent_id)[k],
        events[i].intent_id.0@ == intent_id,
    decreases events.len(),
{
    let rest = events.drop_last();
    if events.last().intent_id.0@ == intent_id && k == group(rest, intent_id).len() {
        events.len() - 1
    } else {
        let i = lemma_group_within(rest, intent_id, k);
        assert(rest[i] == events[i]);
        i
    }
}

/// A value leg comes from a declaration and a pair with the same key.
pub proof fn lemma_leg_sources(
    declared: Seq<DeclarationContent>,
    pairs: Seq<PairContent>,
    commit: CommitRef,
    at: int,
) -> (sources: (int, int))
    requires
        0 <= at < legs_merged(declared, pairs, commit).len(),
    ensures
        ({
            let (trade_id, leg) = legs_merged(declared, pairs, commit)[at];
            let d = declared[sources.0];
            let p = pairs[sources.1];
            &&& 0 <= sources.0 < declared.len()
            &&& 0 <= sources.1 < pairs.len()
            &&& d.key == p.key
            &&& trade_id == d.trade_id
            &&& leg.resource == d.key.resource
            &&& leg.amount == d.amount
            &&& leg.to_subject == d.to_subject
            &&& leg.event_ids == p.event_ids
            &&& leg.tenant == p.tenant
            &&& leg.commit == commit
        }),
    decreases declared.len() + pairs.len(),
{
    let legs = legs_merged(declared, pairs, commit);
    if declared[0].key == pairs[0].key {
        if at == 0 {
            (0, 0)
        } else {
            let rest = legs_merged(declared.skip(1), pairs.skip(1), commit);
            assert(rest[at - 1] == legs[at]);
            let (d, p) = lemma_leg_sources(declared.skip(1), pairs.skip(1), commit, at - 1);
            assert(declared.skip(1)[d] == declared[d + 1]);
            assert(pairs.skip(1)[p] == pairs[p + 1]);
            (d + 1, p + 1)
        }
    } else if leg_key_lt(declared[0].key, pairs[0].key) {
        let (d, p) = lemma_leg_sources(declared.skip(1), pairs, commit, at);
        assert(declared.skip(1)[d] == declared[d + 1]);
        (d + 1, p)
    } else {
        let (d, p) = lemma_leg_sources(declared, pairs.skip(1), commit, at);
        assert(pairs.skip(1)[p] == pairs[p + 1]);
        (d, p + 1)
    }
}

proof fn lemma_batch_leg_traced(batch: IngestBatch, at: int)
    requires
        pairs_sound(batch.events@),
        0 <= at < batch_legs(batch).len(),
    ensures
        traced(batch_legs(batch)[at].1, batch.events@),
{
    let events = batch.events@;
    let declared = in_order(declarations(batch.settle_intents@), declaration_lt());
    let pairs = in_order(pairs_in(events), pair_lt());
    let (d, p) = lemma_leg_sources(declared, pairs, commit_kept(batch.commit), at);
    assert(pairs.contains(pairs[p]));
    lemma_in_order_members(pairs_in(events), pair_lt(), pairs[p]);
    lemma_pair_traced(
        events,
        distinct(intents_of(events)),
        pairs[p],
    );
}

proof fn lemma_legs_traced(
    record: RecordContent,
    legs: Seq<(Seq<char>, LegContent)>,
    trade_id: Seq<char>,
    events: Seq<Event>,
)
    requires
        forall|i: int| 0 <= i < legs.len() ==> traced((#[trigger] legs[i]).1, events),
    ensures
        ({
            let r = with_legs(record, legs, trade_id);
            &&& r.trade_id == record.trade_id
            &&& record.events.len() <= r.events.len()
            &&& r.events.take(record.events.len() as int) == record.events
            &&& forall|k: int|
                record.events.len() <= k < r.events.len() ==> of_a_transfer(
                    #[trigger] r.events[k],
                    events,
                )
        }),
    decreases legs.len(),
{
    let r = with_legs(record, legs, trade_id);
    let n = record.events.len() as int;
    if legs.len() == 0 {
        assert(r.events.take(n) =~= record.events);
    } else {
        let rest = legs.drop_last();
        assert forall|i: int| 0 <= i < rest.len() implies traced(
            (#[trigger] rest[i]).1,
            events,
        ) by {
            assert(rest[i] == legs[i]);
        }
        lemma_legs_traced(record, rest, trade_id, events);
        let earlier = with_legs(record, rest, trade_id);
        if legs.last().0 == trade_id {
            let leg = legs[legs.len() - 1].1;
            assert(traced(leg, events));
            assert(r.events.take(n) =~= earlier.events.take(n));
            assert forall|k: int| n <= k < r.events.len() implies of_a_transfer(
                #[trigger] r.events[k],
                events,
            ) by {
                if k < earlier.events.len() {
                    assert(r.events[k] == earlier.events[k]);
                } else {
                    let j = k - earlier.events.len();
                    assert(of_a_transfer(
                        RefContent {
                            event_id: leg.event_ids[j],
                            tenant_id: leg.tenant,
                            operation: "balance.transfer"@,
                        },
                        events,
                    ));
                }
            }
        }
    }
}

} // verus!
