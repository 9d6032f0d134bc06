//! What holds of the trade index as a whole.
use vstd::prelude::*;

use crate::domain::commit::CommitRef;
use crate::domain::event::Event;
use crate::domain::intent::Intent;
use crate::index::builder::{
    after_batch, after_locks, after_settles, after_some_trades, after_trades, after_unlocks,
    batch_legs, commit_complaint, commit_kept, concerned, declares_for, first_nameless, has_legs,
    ingested, least_stuck, leg_refs, lemma_without_legs, nameless_complaint, record_of, ref_to,
    replayed, side_lt, sound_for, stream_sound, stuck, touches, trade_events, trade_missing,
    trades_named, trades_sound, with_legs, IngestBatch,
};
use crate::index::error::IndexError;
use crate::index::order::{ascending, in_order, lemma_in_order, orders, placed};
use crate::index::trade::{LegContent, RecordContent, SideContent};
use crate::index::value::{
    declaration_complaint, declaration_lt, declarations, declarations_sound,
    first_faulty_declaration, least_faulty_pair, leg_key_lt, legs_merged, pair_complaint, pair_lt,
    pairs_in, pairs_sound, value_refused, DeclarationContent, PairContent,
};
use crate::text::{
    lemma_text_lt_asymmetric, lemma_text_lt_total, lemma_text_lt_transitive, text_lt,
};

verus! {

/// Placing adds nothing but the item.
pub proof fn lemma_placed_members<T>(list: Seq<T>, item: T, less: spec_fn(T, T) -> bool, x: T)
    requires
        placed(list, item, less).contains(x),
    ensures
        list.contains(x) || x == item,
    decreases list.len(),
{
    let r = placed(list, item, less);
    let k = choose|k: int| 0 <= k < r.len() && r[k] == x;
    if list.len() > 0 && less(item, list.last()) {
        let shorter = placed(list.drop_last(), item, less);
        if k < shorter.len() {
            assert(shorter[k] == x);
            lemma_placed_members(list.drop_last(), item, less, x);
            if list.drop_last().contains(x) {
                let j = choose|j: int| 0 <= j < list.len() - 1 && list.drop_last()[j] == x;
                assert(list[j] == x);
            }
        } else {
            assert(list[list.len() - 1] == x);
        }
    } else if k < list.len() {
        assert(list[k] == x);
    }
}

/// Ordering adds nothing.
pub proof fn lemma_in_order_members<T>(items: Seq<T>, less: spec_fn(T, T) -> bool, x: T)
    requires
        in_order(items, less).contains(x),
    ensures
        items.contains(x),
    decreases items.len(),
{
    if items.len() > 0 {
        lemma_placed_members(in_order(items.drop_last(), less), items.last(), less, x);
        if in_order(items.drop_last(), less).contains(x) {
            lemma_in_order_members(items.drop_last(), less, x);
            let k = choose|k: int| 0 <= k < items.len() - 1 && items.drop_last()[k] == x;
            assert(items[k] == x);
        } else {
            assert(items[items.len() - 1] == x);
        }
    }
}

/// A declaration comes from an intent that declares it.
proof fn lemma_declared_by(intents: Seq<Intent>, declared: DeclarationContent) -> (at: int)
    requires
        declarations(intents).contains(declared),
        forall|k: int|
            0 <= k < intents.len() ==> declaration_complaint(
                #[trigger] intents[k],
            ) is None,
    ensures
        0 <= at < intents.len(),
        declares_for(intents[at], declared.trade_id),
    decreases intents.len(),
{
    let list = declarations(intents);
    let earlier = declarations(intents.drop_last());
    let k = choose|k: int| 0 <= k < list.len() && list[k] == declared;
    if k < earlier.len() {
        assert(earlier[k] == declared);
        assert forall|j: int| 0 <= j < intents.len() - 1 implies
            declaration_complaint(#[trigger] intents.drop_last()[j])
                is None by {
            assert(intents.drop_last()[j] == intents[j]);
        }
        lemma_declared_by(intents.drop_last(), declared)
    } else {
        assert(declaration_complaint(intents[intents.len() - 1]) is None);
        intents.len() - 1
    }
}

/// A value leg comes from a declaration.
proof fn lemma_leg_declared(
    declared: Seq<DeclarationContent>,
    pairs: Seq<PairContent>,
    commit: CommitRef,
    trade_id: Seq<char>,
)
    requires
        has_legs(legs_merged(declared, pairs, commit), trade_id),
    ensures
        exists|k: int| 0 <= k < declared.len() && (#[trigger] declared[k]).trade_id == trade_id,
    decreases declared.len() + pairs.len(),
{
    let legs = legs_merged(declared, pairs, commit);
    let k = choose|k: int| 0 <= k < legs.len() && (#[trigger] legs[k]).0 == trade_id;
    if declared[0].key == pairs[0].key {
        if k == 0 {
            assert(declared[0].trade_id == trade_id);
        } else {
            let rest = legs_merged(declared.skip(1), pairs.skip(1), commit);
            assert(rest[k - 1] == legs[k]);
            lemma_leg_declared(declared.skip(1), pairs.skip(1), commit, trade_id);
        }
    } else if leg_key_lt(declared[0].key, pairs[0].key) {
        lemma_leg_declared(declared.skip(1), pairs, commit, trade_id);
    } else {
        lemma_leg_declared(declared, pairs.skip(1), commit, trade_id);
    }
    if !(exists|j: int|
        0 <= j < declared.len() && (#[trigger] declared[j]).trade_id == trade_id) {
        let j = choose|j: int|
            0 <= j < declared.skip(1).len() && (#[trigger] declared.skip(1)[j]).trade_id
                == trade_id;
        assert(declared[j + 1].trade_id == trade_id);
    }
}

/// The value legs of a batch belong to trades that it touches.
proof fn lemma_legs_touch(batch: IngestBatch, trade_id: Seq<char>)
    requires
        forall|k: int|
            0 <= k < batch.settle_intents@.len() ==> declaration_complaint(
                #[trigger] batch.settle_intents@[k],
            ) is None,
        has_legs(batch_legs(batch), trade_id),
    ensures
        touches(batch, trade_id),
{
    let declared = in_order(declarations(batch.settle_intents@), declaration_lt());
    let pairs = in_order(pairs_in(batch.events@), pair_lt());
    lemma_leg_declared(declared, pairs, commit_kept(batch.commit), trade_id);
    let k = choose|k: int|
        0 <= k < declared.len() && (#[trigger] declared[k]).trade_id == trade_id;
    assert(declared.contains(declared[k]));
    lemma_in_order_members(declarations(batch.settle_intents@), declaration_lt(), declared[k]);
    let at = lemma_declared_by(batch.settle_intents@, declared[k]);
    assert(declares_for(batch.settle_intents@[at], trade_id));
}

/// A batch, whatever comes of it, leaves the records of trades that it does
/// not touch as they are.
pub proof fn law_batches_leave_other_trades(
    r: Result<(), IndexError>,
    before: Map<Seq<char>, RecordContent>,
    after: Map<Seq<char>, RecordContent>,
    batch: IngestBatch,
    trade_id: Seq<char>,
)
    requires
        ingested(r, before, after, batch),
        !touches(batch, trade_id),
    ensures
        after.contains_key(trade_id) == before.contains_key(trade_id),
        before.contains_key(trade_id) ==> after[trade_id] == before[trade_id],
{
    if sound_for(before, batch) {
        if has_legs(batch_legs(batch), trade_id) {
            lemma_legs_touch(batch, trade_id);
        }
        let middle = after_trades(before, batch.events@, commit_kept(batch.commit));
        lemma_without_legs(record_of(middle, trade_id), batch_legs(batch), trade_id);
    }
}

/// The records that a batch touches, out of an index.
pub open spec fn seed(
    state: Map<Seq<char>, RecordContent>,
    batch: IngestBatch,
) -> Map<Seq<char>, RecordContent> {
    Map::new(
        |id: Seq<char>| state.contains_key(id) && touches(batch, id),
        |id: Seq<char>| state[id],
    )
}

/// An index in which some records are replaced or added.
pub open spec fn merged(
    state: Map<Seq<char>, RecordContent>,
    updates: Map<Seq<char>, RecordContent>,
) -> Map<Seq<char>, RecordContent> {
    state.union_prefer_right(updates)
}

/// Applying a batch to the records that it touches, and putting them back,
/// is the same as applying it to the whole index; and it goes through on the
/// one exactly when it goes through on the other.
pub proof fn law_touched_records_suffice(state: Map<Seq<char>, RecordContent>, batch: IngestBatch)
    ensures
        sound_for(state, batch) <==> sound_for(seed(state, batch), batch),
        sound_for(state, batch) ==> merged(state, after_batch(seed(state, batch), batch))
            == after_batch(state, batch),
{
    let seeded = seed(state, batch);
    let events = batch.events@;
    let commit = commit_kept(batch.commit);
    assert forall|id: Seq<char>| #[trigger]
        stuck(state, events, commit, id) == stuck(seeded, events, commit, id) by {
        if concerned(events, id) {
            assert(touches(batch, id));
            assert(record_of(state, id) == record_of(seeded, id));
        }
    }
    assert(trades_sound(state, events, commit) <==> trades_sound(seeded, events, commit)) by {
        if trades_sound(state, events, commit) {
            assert forall|id: Seq<char>| !#[trigger] stuck(seeded, events, commit, id) by {
                assert(!stuck(state, events, commit, id));
            }
        }
        if trades_sound(seeded, events, commit) {
            assert forall|id: Seq<char>| !#[trigger] stuck(state, events, commit, id) by {
                assert(!stuck(seeded, events, commit, id));
            }
        }
    }
    if sound_for(state, batch) {
        let whole = after_batch(state, batch);
        let part = after_batch(seeded, batch);
        let legs = batch_legs(batch);
        let whole_middle = after_trades(state, events, commit);
        let part_middle = after_trades(seeded, events, commit);
        assert forall|id: Seq<char>| #[trigger]
            merged(state, part).contains_key(id) == whole.contains_key(id) by {
            if has_legs(legs, id) {
                lemma_legs_touch(batch, id);
            }
        }
        assert forall|id: Seq<char>| #[trigger]
            merged(state, part).contains_key(id) implies merged(state, part)[id] == whole[id] by {
            if touches(batch, id) {
                assert(record_of(state, id) == record_of(seeded, id));
                assert(record_of(whole_middle, id) == record_of(part_middle, id));
            } else {
                if has_legs(legs, id) {
                    lemma_legs_touch(batch, id);
                }
                lemma_without_legs(record_of(whole_middle, id), legs, id);
                assert(!part.contains_key(id));
            }
        }
        assert(merged(state, part) =~= whole);
    }
}

/// An index to which batches are applied one by one, each to the records
/// that it touches.
pub open spec fn ingested_one_by_one(
    state: Map<Seq<char>, RecordContent>,
    batches: Seq<IngestBatch>,
) -> Map<Seq<char>, RecordContent>
    decreases batches.len(),
{
    if batches.len() == 0 {
        state
    } else {
        let earlier = ingested_one_by_one(state, batches.drop_last());
        merged(earlier, after_batch(seed(earlier, batches.last()), batches.last()))
    }
}

/// Replaying a stream of batches from scratch gives the same index as
/// applying its batches as they arrive.
pub proof fn law_replay_equals_incremental_ingest(
    state: Map<Seq<char>, RecordContent>,
    batches: Seq<IngestBatch>,
)
    requires
        stream_sound(state, batches),
    ensures
        ingested_one_by_one(state, batches) == replayed(state, batches),
    decreases batches.len(),
{
    if batches.len() > 0 {
        let earlier = batches.drop_last();
        assert forall|k: int| 0 <= k < earlier.len() implies sound_for(
            replayed(state, #[trigger] earlier.take(k)),
            earlier[k],
        ) by {
            assert(earlier.take(k) =~= batches.take(k));
        }
        law_replay_equals_incremental_ingest(state, earlier);
        assert(batches.take(batches.len() - 1) =~= earlier);
        law_touched_records_suffice(replayed(state, earlier), batches.last());
    }
}

/// Applying a batch is deterministic: two outcomes on the same index agree.
pub proof fn law_ingestion_is_deterministic(
    x: Result<(), IndexError>,
    y: Result<(), IndexError>,
    before: Map<Seq<char>, RecordContent>,
    after_x: Map<Seq<char>, RecordContent>,
    after_y: Map<Seq<char>, RecordContent>,
    batch: IngestBatch,
)
    requires
        ingested(x, before, after_x, batch),
        ingested(y, before, after_y, batch),
    ensures
        after_x == after_y,
        match (x, y) {
            (Ok(_), Ok(_)) => true,
            (Err(a), Err(b)) => a.text() == b.text(),
            _ => false,
        },
{
    let events = batch.events@;
    let commit = commit_kept(batch.commit);
    if commit_complaint(batch.commit) is Some {
    } else if !pairs_sound(events) {
        let a = choose|id: Seq<char>| #[trigger]
            least_faulty_pair(events, id)
                && value_refused(
                x,
                pair_complaint(events, id)->0,
            );
        let b = choose|id: Seq<char>| #[trigger]
            least_faulty_pair(events, id)
                && value_refused(
                y,
                pair_complaint(events, id)->0,
            );
        lemma_text_lt_total(a, b);
    } else if !trades_named(events) {
        let a = choose|at: int| #[trigger]
            first_nameless(events, at)
                && trade_missing(
                x,
                nameless_complaint(events[at]),
            );
        let b = choose|at: int| #[trigger]
            first_nameless(events, at)
                && trade_missing(
                y,
                nameless_complaint(events[at]),
            );
        assert(a == b);
    } else if !trades_sound(before, events, commit) {
        let a = choose|id: Seq<char>| #[trigger]
            least_stuck(before, events, commit, id) && after_x == after_some_trades(
                before,
                events,
                commit,
                id,
            );
        let b = choose|id: Seq<char>| #[trigger]
            least_stuck(before, events, commit, id) && after_y == after_some_trades(
                before,
                events,
                commit,
                id,
            );
        lemma_text_lt_total(a, b);
    } else if !declarations_sound(batch.settle_intents@) {
        let intents = batch.settle_intents@;
        let a = choose|at: int| #[trigger]
            first_faulty_declaration(intents, at) && value_refused(
                x,
                declaration_complaint(intents[at])->0,
            );
        let b = choose|at: int| #[trigger]
            first_faulty_declaration(intents, at) && value_refused(
                y,
                declaration_complaint(intents[at])->0,
            );
        assert(a == b);
    }
}

proof fn lemma_side_order()
    ensures
        orders(side_lt()),
{
    assert forall|a: SideContent, b: SideContent| #[trigger]
        side_lt()(a, b) implies !side_lt()(b, a) by {
        lemma_text_lt_asymmetric(a.tenant, b.tenant);
    }
    assert forall|a: SideContent, b: SideContent, c: SideContent|
        !(#[trigger] side_lt()(b, a)) && !(#[trigger] side_lt()(c, b)) implies !side_lt()(c, a) by {
        lemma_text_lt_total(a.tenant, b.tenant);
        lemma_text_lt_total(b.tenant, c.tenant);
        if text_lt(c.tenant, a.tenant) {
            if text_lt(a.tenant, b.tenant) {
                lemma_text_lt_transitive(c.tenant, a.tenant, b.tenant);
            }
        }
    }
}

/// Value legs leave the sides alone.
pub proof fn lemma_legs_keep_sides(
    record: RecordContent,
    legs: Seq<(Seq<char>, LegContent)>,
    trade_id: Seq<char>,
)
    ensures
        with_legs(record, legs, trade_id).sides == record.sides,
        with_legs(record, legs, trade_id).status == record.status,
    decreases legs.len(),
{
    if legs.len() > 0 {
        lemma_legs_keep_sides(record, legs.drop_last(), trade_id);
    }
}

/// After a batch, the sides of every trade that it has events of are in
/// tenant order.
pub proof fn law_sides_come_in_tenant_order(
    before: Map<Seq<char>, RecordContent>,
    after: Map<Seq<char>, RecordContent>,
    batch: IngestBatch,
    trade_id: Seq<char>,
)
    requires
        ingested(Ok(()), before, after, batch),
        concerned(batch.events@, trade_id),
    ensures
        after.contains_key(trade_id),
        ascending(after[trade_id].sides, side_lt()),
{
    let commit = commit_kept(batch.commit);
    let middle = after_trades(before, batch.events@, commit);
    assert(!stuck(before, batch.events@, commit, trade_id));
    lemma_side_order();
    lemma_legs_keep_sides(record_of(middle, trade_id), batch_legs(batch), trade_id);
    let settled = after_settles(
        after_locks(
            record_of(before, trade_id),
            trade_events(batch.events@, trade_id),
        ),
        trade_events(batch.events@, trade_id),
        commit,
    ).0;
    let released = after_unlocks(
        settled,
        trade_events(batch.events@, trade_id),
    );
    lemma_in_order(released.sides, side_lt());
}

/// Whether a list starts with another.
pub open spec fn extends<T>(list: Seq<T>, start: Seq<T>) -> bool {
    start.len() <= list.len() && list.take(start.len() as int) == start
}

proof fn lemma_extends_push<T>(list: Seq<T>, start: Seq<T>, item: T)
    requires
        extends(list, start),
    ensures
        extends(list.push(item), start),
{
    assert(list.push(item).take(start.len() as int) =~= list.take(start.len() as int));
}

proof fn lemma_locks_append(record: RecordContent, events: Seq<Event>)
    ensures
        extends(after_locks(record, events).events, record.events),
    decreases events.len(),
{
    if events.len() == 0 {
        assert(record.events.take(record.events.len() as int) =~= record.events);
    } else {
        let earlier = after_locks(record, events.drop_last());
        lemma_locks_append(record, events.drop_last());
        lemma_extends_push(earlier.events, record.events, ref_to(events.last()));
    }
}

proof fn lemma_settles_append(record: RecordContent, events: Seq<Event>, commit: CommitRef)
    ensures
        extends(after_settles(record, events, commit).0.events, record.events),
    decreases events.len(),
{
    if events.len() == 0 {
        assert(record.events.take(record.events.len() as int) =~= record.events);
    } else {
        let earlier = after_settles(record, events.drop_last(), commit).0;
        lemma_settles_append(record, events.drop_last(), commit);
        lemma_extends_push(earlier.events, record.events, ref_to(events.last()));
    }
}

proof fn lemma_unlocks_append(record: RecordContent, events: Seq<Event>)
    ensures
        extends(after_unlocks(record, events).events, record.events),
    decreases events.len(),
{
    if events.len() == 0 {
        assert(record.events.take(record.events.len() as int) =~= record.events);
    } else {
        let earlier = after_unlocks(record, events.drop_last());
        lemma_unlocks_append(record, events.drop_last());
        lemma_extends_push(earlier.events, record.events, ref_to(events.last()));
    }
}

proof fn lemma_legs_append(
    record: RecordContent,
    legs: Seq<(Seq<char>, LegContent)>,
    trade_id: Seq<char>,
)
    ensures
        extends(with_legs(record, legs, trade_id).events, record.events),
    decreases legs.len(),
{
    if legs.len() == 0 {
        assert(record.events.take(record.events.len() as int) =~= record.events);
    } else {
        let earlier = with_legs(record, legs.drop_last(), trade_id);
        lemma_legs_append(record, legs.drop_last(), trade_id);
        if legs.last().0 == trade_id {
            let n = record.events.len() as int;
            assert((earlier.events + leg_refs(legs.last().1)).take(n) =~= earlier.events.take(n));
        }
    }
}

proof fn lemma_extends_transitive<T>(a: Seq<T>, b: Seq<T>, c: Seq<T>)
    requires
        extends(b, a),
        extends(c, b),
    ensures
        extends(c, a),
{
    assert(c.take(a.len() as int) =~= c.take(b.len() as int).take(a.len() as int));
}

/// A record's list of events only ever grows at its end.
pub proof fn law_event_lists_are_append_only(
    before: Map<Seq<char>, RecordContent>,
    after: Map<Seq<char>, RecordContent>,
    batch: IngestBatch,
    trade_id: Seq<char>,
)
    requires
        ingested(Ok(()), before, after, batch),
        before.contains_key(trade_id),
    ensures
        after.contains_key(trade_id),
        extends(after[trade_id].events, before[trade_id].events),
{
    let commit = commit_kept(batch.commit);
    let middle = after_trades(before, batch.events@, commit);
    let record = before[trade_id];
    let events = trade_events(batch.events@, trade_id);
    assert(record.events.take(record.events.len() as int) =~= record.events);
    if concerned(batch.events@, trade_id) {
        assert(!stuck(before, batch.events@, commit, trade_id));
        let locked = after_locks(record, events);
        let settled = after_settles(locked, events, commit).0;
        lemma_locks_append(record, events);
        lemma_settles_append(locked, events, commit);
        lemma_unlocks_append(settled, events);
        lemma_extends_transitive(record.events, locked.events, settled.events);
        lemma_extends_transitive(record.events, settled.events, middle[trade_id].events);
    }
    lemma_legs_append(middle[trade_id], batch_legs(batch), trade_id);
    lemma_extends_transitive(record.events, middle[trade_id].events, after[trade_id].events);
}

} // verus!
