//! What the sides and value legs of a trade's record say of a batch.
use vstd::prelude::*;

use crate::amount::amount_of;
use crate::domain::commit::{Commit, CommitRef, Signed};
use crate::domain::event::Event;
use crate::domain::intent::{value_leg_declared, Intent};
use crate::domain::laws::law_amounts_are_plain_numbers;
use crate::domain::state::{ResourceState, StateType};
use crate::executor::atomicity::group;
use crate::executor::fitting::{lemma_members_in_order, lemma_two};
use crate::executor::names::lemma_operation_names;
use crate::index::builder::{
    after_locks, after_settles, after_trades, batch_legs, commit_kept, concerned, has_legs,
    ingested, owners_named, record_of, side_lt, side_position, stuck, trade_events, trade_named,
    with_legs, with_settlement, IngestBatch,
};
use crate::index::laws::{lemma_in_order_members, lemma_legs_keep_sides, lemma_placed_members};
use crate::index::matching::{key_of, law_value_legs_match_common_keys, times_matched};
use crate::index::order::{in_order, placed};
use crate::index::referenced::{
    is_settlement, lemma_group_within, lemma_leg_sources, lemma_named, lemma_named_last,
    lemma_owed_lock, lemma_owed_release, lemma_owed_settlement,
};
use crate::index::trade::{LegContent, RecordContent, SideContent};
use crate::index::value::{
    declaration_complaint, declaration_lt, declaration_of, declarations, declarations_sound,
    intents_of, moves_value, pair_complaint, pair_lt, pair_of, pairs_along, pairs_in, pairs_sound,
    DeclarationContent, PairContent,
};
use crate::json::{lookup, member, Json};
use crate::text::{
    distinct, law_distinct_members_are_the_members, lemma_text_lt_asymmetric,
    lemma_text_lt_irreflexive, lemma_text_lt_total, text_lt,
};

verus! {

/// Whether a reference to a commit names it, its place, the root over the state
/// that it led to, and its signature.
pub open spec fn pins(reference: CommitRef, signed: Signed<Commit>) -> bool {
    &&& reference.commit_id.0@ == signed.body.commit_id.0@
    &&& reference.sequence == signed.body.sequence
    &&& reference.state_root.bytes@ == signed.body.next_state_root.bytes@
    &&& reference.signature == signed.signature
}

/// Whether a side shows a settlement: the tenant's side, with the asset and the
/// event, pinned by the commit.
pub open spec fn shows(side: SideContent, event: Event, signed: Signed<Commit>) -> bool {
    &&& side.tenant == event.tenant_id.0@
    &&& side.assets.contains(event.resource_id.0@)
    &&& side.event_ids.contains(event.event_id.0@)
    &&& side.commits.contains_key(event.resource_id.0@)
    &&& pins(side.commits[event.resource_id.0@], signed)
}

/// Whether a side is what has become of an earlier one: nothing of it is lost,
/// and whose it is, whom it goes between and where it began are the same.
pub open spec fn carries_on(side: SideContent, earlier: SideContent) -> bool {
    &&& side.tenant == earlier.tenant
    &&& side.from_owner == earlier.from_owner
    &&& side.to_owner == earlier.to_owner
    &&& side.commit == earlier.commit
    &&& earlier.assets.len() <= side.assets.len()
    &&& side.assets.take(earlier.assets.len() as int) == earlier.assets
    &&& earlier.event_ids.len() <= side.event_ids.len()
    &&& side.event_ids.take(earlier.event_ids.len() as int) == earlier.event_ids
    &&& forall|asset: Seq<char>| #[trigger]
        earlier.commits.contains_key(asset) ==> side.commits.contains_key(asset)
}

/// Whether a side began with a settlement: between the owners before and after
/// it, pinned by the commit.
pub open spec fn began_with(side: SideContent, event: Event, signed: Signed<Commit>) -> bool {
    &&& side.tenant == event.tenant_id.0@
    &&& member(event.before.state.payload@, "owner"@) == Some(Json::Str(side.from_owner))
    &&& member(event.after.state.payload@, "owner"@) == Some(Json::Str(side.to_owner))
    &&& pins(side.commit, signed)
}

/// Whether one of the sides shows a settlement.
pub open spec fn some_shows(sides: Seq<SideContent>, event: Event, signed: Signed<Commit>) -> bool {
    exists|k: int| 0 <= k < sides.len() && shows(#[trigger] sides[k], event, signed)
}

/// Whether one of the sides is what has become of an earlier one.
pub open spec fn some_carries_on(sides: Seq<SideContent>, earlier: SideContent) -> bool {
    exists|k: int| 0 <= k < sides.len() && carries_on(#[trigger] sides[k], earlier)
}

/// Whether a side has become of one of the earlier ones.
pub open spec fn carries_some_on(side: SideContent, earlier: Seq<SideContent>) -> bool {
    exists|k: int| 0 <= k < earlier.len() && carries_on(side, #[trigger] earlier[k])
}

/// Whether a side began with one of a trade's settlements.
pub open spec fn began_with_some(
    side: SideContent,
    events: Seq<Event>,
    trade_id: Seq<char>,
    signed: Signed<Commit>,
) -> bool {
    exists|i: int|
        0 <= i < events.len() && is_settlement(#[trigger] events[i], trade_id) && began_with(
            side,
            events[i],
            signed,
        )
}

/// Whether no two sides are of one tenant.
pub open spec fn one_side_each(sides: Seq<SideContent>) -> bool {
    forall|i: int, j: int|
        0 <= i < j < sides.len() ==> (#[trigger] sides[i]).tenant != (#[trigger] sides[j]).tenant
}

/// The sides that a record had.
pub open spec fn earlier_sides(
    before: Map<Seq<char>, RecordContent>,
    trade_id: Seq<char>,
) -> Seq<SideContent> {
    if before.contains_key(trade_id) {
        before[trade_id].sides
    } else {
        Seq::empty()
    }
}

/// After a successful ingest each settlement of a trade shows on the side of
/// its tenant, no earlier side is lost, every side is an earlier one carried on
/// or began with a settlement of the batch, and no tenant gets a second side.
pub proof fn law_sides_show_the_settlements(
    before: Map<Seq<char>, RecordContent>,
    after: Map<Seq<char>, RecordContent>,
    batch: IngestBatch,
    trade_id: Seq<char>,
)
    requires
        ingested(Ok(()), before, after, batch),
        after.contains_key(trade_id),
    ensures
        ({
            let events = batch.events@;
            let earlier = earlier_sides(before, trade_id);
            let sides = after[trade_id].sides;
            &&& forall|i: int|
                0 <= i < events.len() && is_settlement(#[trigger] events[i], trade_id)
                    ==> some_shows(sides, events[i], batch.commit)
            &&& forall|k: int|
                0 <= k < earlier.len() ==> some_carries_on(sides, #[trigger] earlier[k])
            &&& forall|k: int|
                0 <= k < sides.len() ==> carries_some_on(#[trigger] sides[k], earlier)
                    || began_with_some(sides[k], events, trade_id, batch.commit)
            &&& one_side_each(earlier) ==> one_side_each(sides)
        }),
{
    let events = batch.events@;
    let commit = commit_kept(batch.commit);
    let middle = after_trades(before, events, commit);
    let named = trade_events(events, trade_id);
    let record = record_of(before, trade_id);
    let earlier = earlier_sides(before, trade_id);
    assert(record.sides =~= earlier);
    assert(!stuck(before, events, commit, trade_id));
    lemma_owed_lock(record, events, trade_id);
    let locked = after_locks(record, named);
    lemma_settled_sides(locked, events, trade_id, batch.commit);
    let settled = after_settles(locked, named, commit).0;
    lemma_owed_release(settled, events, trade_id);
    lemma_legs_keep_sides(record_of(middle, trade_id), batch_legs(batch), trade_id);
    let sides = after[trade_id].sides;
    let unordered = settled.sides;
    lemma_named(events, trade_id);
    if concerned(events, trade_id) {
        assert(sides == in_order(unordered, side_lt()));
        if one_side_each(unordered) {
            lemma_order_keeps_apart(unordered);
        }
        assert forall|i: int|
            0 <= i < events.len() && is_settlement(#[trigger] events[i], trade_id) implies
            some_shows(sides, events[i], batch.commit) by {
            assert(some_shows(unordered, events[i], batch.commit));
            let k = choose|k: int|
                0 <= k < unordered.len() && shows(
                    #[trigger] unordered[k],
                    events[i],
                    batch.commit,
                );
            let m = lemma_still_there(unordered, k);
            assert(shows(sides[m], events[i], batch.commit));
        }
        assert forall|k: int| 0 <= k < earlier.len() implies some_carries_on(
            sides,
            #[trigger] earlier[k],
        ) by {
            assert(some_carries_on(unordered, earlier[k]));
            let j = choose|j: int|
                0 <= j < unordered.len() && carries_on(#[trigger] unordered[j], earlier[k]);
            let m = lemma_still_there(unordered, j);
            assert(carries_on(sides[m], earlier[k]));
        }
        assert forall|k: int| 0 <= k < sides.len() implies carries_some_on(
            #[trigger] sides[k],
            earlier,
        ) || began_with_some(sides[k], events, trade_id, batch.commit) by {
            assert(sides.contains(sides[k]));
            lemma_in_order_members(unordered, side_lt(), sides[k]);
            let j = choose|j: int| 0 <= j < unordered.len() && unordered[j] == sides[k];
            assert(carries_some_on(unordered[j], earlier) || began_with_some(
                unordered[j],
                events,
                trade_id,
                batch.commit,
            ));
        }
    } else {
        assert(sides == earlier);
        assert forall|k: int| 0 <= k < sides.len() implies carries_some_on(
            #[trigger] sides[k],
            earlier,
        ) && some_carries_on(sides, earlier[k]) by {
            lemma_carries_itself(sides[k]);
            assert(carries_on(sides[k], earlier[k]));
        }
        assert forall|i: int| 0 <= i < events.len() implies !is_settlement(
            #[trigger] events[i],
            trade_id,
        ) by {
            assert(trade_named(events[i]) != Some(trade_id));
        }
    }
}

/// Placing keeps every item, and adds the new one.
proof fn lemma_placed_keeps(list: Seq<SideContent>, item: SideContent, x: SideContent)
    requires
        list.contains(x) || x == item,
    ensures
        placed(list, item, side_lt()).contains(x),
    decreases list.len(),
{
    let r = placed(list, item, side_lt());
    let k = if list.contains(x) {
        choose|k: int| 0 <= k < list.len() && list[k] == x
    } else {
        list.len() as int
    };
    if list.len() > 0 && side_lt()(item, list.last()) {
        let rest = list.drop_last();
        let inner = placed(rest, item, side_lt());
        if k == rest.len() {
            assert(r[r.len() - 1] == x);
        } else {
            if k < rest.len() {
                assert(rest[k] == x);
            }
            lemma_placed_keeps(rest, item, x);
            let m = choose|m: int| 0 <= m < inner.len() && inner[m] == x;
            assert(r[m] == x);
        }
    } else {
        assert(r[k] == x);
    }
}

proof fn lemma_still_there(sides: Seq<SideContent>, k: int) -> (m: int)
    requires
        0 <= k < sides.len(),
    ensures
        0 <= m < in_order(sides, side_lt()).len(),
        in_order(sides, side_lt())[m] == sides[k],
    decreases sides.len(),
{
    let rest = sides.drop_last();
    let ordered = in_order(rest, side_lt());
    if k < rest.len() {
        let j = lemma_still_there(rest, k);
        assert(ordered[j] == sides[k]);
    }
    lemma_placed_keeps(ordered, sides.last(), sides[k]);
    choose|m: int|
        0 <= m < in_order(sides, side_lt()).len() && in_order(sides, side_lt())[m] == sides[k]
}

proof fn lemma_carries_itself(side: SideContent)
    ensures
        carries_on(side, side),
{
    assert(side.assets.take(side.assets.len() as int) =~= side.assets);
    assert(side.event_ids.take(side.event_ids.len() as int) =~= side.event_ids);
}

proof fn lemma_carries_transitively(a: SideContent, b: SideContent, c: SideContent)
    requires
        carries_on(b, a),
        carries_on(c, b),
    ensures
        carries_on(c, a),
{
    assert(c.assets.take(a.assets.len() as int) =~= b.assets.take(a.assets.len() as int)) by {
        assert forall|i: int| 0 <= i < a.assets.len() implies c.assets[i] == b.assets[i] by {
            assert(c.assets.take(b.assets.len() as int)[i] == b.assets[i]);
        }
    }
    assert(c.event_ids.take(a.event_ids.len() as int) =~= b.event_ids.take(
        a.event_ids.len() as int,
    )) by {
        assert forall|i: int| 0 <= i < a.event_ids.len() implies c.event_ids[i]
            == b.event_ids[i] by {
            assert(c.event_ids.take(b.event_ids.len() as int)[i] == b.event_ids[i]);
        }
    }
}

/// Where a tenant's side is, if there is one.
proof fn lemma_side_position(sides: Seq<SideContent>, tenant: Seq<char>)
    ensures
        match side_position(sides, tenant) {
            Some(at) => 0 <= at < sides.len() && sides[at].tenant == tenant,
            None => forall|k: int| 0 <= k < sides.len() ==> (#[trigger] sides[k]).tenant != tenant,
        },
    decreases sides.len(),
{
    if sides.len() > 0 {
        let rest = sides.drop_last();
        lemma_side_position(rest, tenant);
        if side_position(sides, tenant) is None {
            assert forall|k: int| 0 <= k < sides.len() implies (#[trigger] sides[k]).tenant
                != tenant by {
                if k < rest.len() {
                    assert(rest[k].tenant != tenant);
                }
            }
        }
    }
}

/// One settlement shows on a side, and leaves the sides otherwise as they were.
proof fn lemma_one_settlement(sides: Seq<SideContent>, event: Event, signed: Signed<Commit>)
    requires
        owners_named(event),
    ensures
        ({
            let next = with_settlement(sides, event, commit_kept(signed));
            &&& sides.len() <= next.len() <= sides.len() + 1
            &&& some_shows(next, event, signed)
            &&& forall|k: int| 0 <= k < sides.len() ==> carries_on(#[trigger] next[k], sides[k])
            &&& next.len() > sides.len() ==> began_with(next[sides.len() as int], event, signed)
            &&& forall|k: int, other: Event|
                0 <= k < sides.len() && shows(sides[k], other, signed) ==> #[trigger] shows(
                    next[k],
                    other,
                    signed,
                )
            &&& one_side_each(sides) ==> one_side_each(next)
        }),
{
    let tenant = event.tenant_id.0@;
    let asset = event.resource_id.0@;
    let next = with_settlement(sides, event, commit_kept(signed));
    lemma_side_position(sides, tenant);
    let at = match side_position(sides, tenant) {
        Some(at) => at,
        None => sides.len() as int,
    };
    assert forall|k: int| 0 <= k < sides.len() implies carries_on(#[trigger] next[k], sides[k]) by {
        lemma_carries_itself(sides[k]);
        if k == at {
            assert(next[k].assets.take(sides[k].assets.len() as int) =~= sides[k].assets);
            assert(next[k].event_ids.take(sides[k].event_ids.len() as int) =~= sides[k].event_ids);
        }
    }
    assert(next[at].event_ids[next[at].event_ids.len() - 1] == event.event_id.0@);
    assert(next[at].assets.contains(asset)) by {
        if at == sides.len() || !sides[at].assets.contains(asset) {
            assert(next[at].assets[next[at].assets.len() - 1] == asset);
        }
    }
    assert(shows(next[at], event, signed));
    assert forall|k: int, other: Event|
        0 <= k < sides.len() && shows(sides[k], other, signed) implies #[trigger] shows(
        next[k],
        other,
        signed,
    ) by {
        if k == at {
            let ids = sides[k].event_ids;
            let i = choose|i: int| 0 <= i < ids.len() && ids[i] == other.event_id.0@;
            assert(next[k].event_ids[i] == ids[i]);
            let assets = sides[k].assets;
            let j = choose|j: int| 0 <= j < assets.len() && assets[j] == other.resource_id.0@;
            assert(next[k].assets[j] == assets[j]);
        }
    }
}

proof fn lemma_settled_sides(
    record: RecordContent,
    events: Seq<Event>,
    trade_id: Seq<char>,
    signed: Signed<Commit>,
)
    ensures
        ({
            let r = after_settles(record, trade_events(events, trade_id), commit_kept(signed));
            let sides = r.0.sides;
            r.1 ==> {
                &&& forall|i: int|
                    0 <= i < events.len() && is_settlement(#[trigger] events[i], trade_id)
                        ==> some_shows(sides, events[i], signed)
                &&& forall|k: int|
                    0 <= k < record.sides.len() ==> some_carries_on(
                        sides,
                        #[trigger] record.sides[k],
                    )
                &&& forall|k: int|
                    0 <= k < sides.len() ==> carries_some_on(#[trigger] sides[k], record.sides)
                        || began_with_some(sides[k], events, trade_id, signed)
                &&& one_side_each(record.sides) ==> one_side_each(sides)
            }
        }),
    decreases events.len(),
{
    let commit = commit_kept(signed);
    let r = after_settles(record, trade_events(events, trade_id), commit);
    let sides = r.0.sides;
    lemma_named(events, trade_id);
    lemma_operation_names();
    if events.len() == 0 {
        assert forall|k: int| 0 <= k < sides.len() implies carries_some_on(
            #[trigger] sides[k],
            record.sides,
        ) && some_carries_on(sides, record.sides[k]) by {
            lemma_carries_itself(sides[k]);
            assert(carries_on(sides[k], record.sides[k]));
        }
    } else if r.1 {
        let rest = events.drop_last();
        let last = events.last();
        lemma_settled_sides(record, rest, trade_id, signed);
        lemma_named_last(events, trade_id);
        let earlier = after_settles(record, trade_events(rest, trade_id), commit).0.sides;
        assert(events[events.len() - 1] == last);
        assert(forall|i: int| 0 <= i < rest.len() ==> rest[i] == #[trigger] events[i]);
        if is_settlement(last, trade_id) {
            lemma_one_settlement(earlier, last, signed);
        } else {
            assert(sides == earlier);
            assert forall|k: int| 0 <= k < sides.len() implies carries_on(
                #[trigger] sides[k],
                earlier[k],
            ) by {
                lemma_carries_itself(sides[k]);
            }
        }
        assert forall|i: int|
            0 <= i < events.len() && is_settlement(#[trigger] events[i], trade_id) implies
            some_shows(sides, events[i], signed) by {
            if i < rest.len() {
                assert(is_settlement(rest[i], trade_id));
                assert(some_shows(earlier, rest[i], signed));
                let k = choose|k: int|
                    0 <= k < earlier.len() && shows(#[trigger] earlier[k], rest[i], signed);
                assert(shows(sides[k], rest[i], signed));
            }
        }
        assert forall|k: int| 0 <= k < record.sides.len() implies some_carries_on(
            sides,
            #[trigger] record.sides[k],
        ) by {
            assert(some_carries_on(earlier, record.sides[k]));
            let j = choose|j: int|
                0 <= j < earlier.len() && carries_on(#[trigger] earlier[j], record.sides[k]);
            lemma_carries_transitively(record.sides[k], earlier[j], sides[j]);
        }
        assert forall|k: int| 0 <= k < sides.len() implies carries_some_on(
            #[trigger] sides[k],
            record.sides,
        ) || began_with_some(sides[k], events, trade_id, signed) by {
            if k < earlier.len() {
                if carries_some_on(earlier[k], record.sides) {
                    let j = choose|j: int|
                        0 <= j < record.sides.len() && carries_on(
                            earlier[k],
                            #[trigger] record.sides[j],
                        );
                    lemma_carries_transitively(record.sides[j], earlier[k], sides[k]);
                } else {
                    let i = choose|i: int|
                        0 <= i < rest.len() && is_settlement(#[trigger] rest[i], trade_id)
                            && began_with(earlier[k], rest[i], signed);
                    assert(events[i] == rest[i]);
                    assert(began_with(sides[k], events[i], signed));
                }
            } else {
                assert(began_with(sides[k], events[events.len() - 1], signed));
            }
        }
    }
}

proof fn lemma_placed_apart(list: Seq<SideContent>, item: SideContent)
    requires
        one_side_each(list),
        forall|k: int| 0 <= k < list.len() ==> (#[trigger] list[k]).tenant != item.tenant,
    ensures
        one_side_each(placed(list, item, side_lt())),
    decreases list.len(),
{
    let r = placed(list, item, side_lt());
    if list.len() > 0 && side_lt()(item, list.last()) {
        let rest = list.drop_last();
        assert forall|i: int, j: int| 0 <= i < j < rest.len() implies (#[trigger] rest[i]).tenant
            != (#[trigger] rest[j]).tenant by {
            assert(list[i].tenant != list[j].tenant);
        }
        lemma_placed_apart(rest, item);
        let inner = placed(rest, item, side_lt());
        assert forall|i: int, j: int| 0 <= i < j < r.len() implies (#[trigger] r[i]).tenant != (
        #[trigger] r[j]).tenant by {
            if j < inner.len() {
                assert(inner[i].tenant != inner[j].tenant);
            } else {
                assert(inner.contains(inner[i]));
                lemma_placed_members(rest, item, side_lt(), inner[i]);
                if inner[i] != item {
                    let k = choose|k: int| 0 <= k < rest.len() && rest[k] == inner[i];
                    assert(list[k].tenant != list[list.len() - 1].tenant);
                } else {
                    assert(list[list.len() - 1].tenant != item.tenant);
                }
            }
        }
    }
}

proof fn lemma_order_keeps_apart(sides: Seq<SideContent>)
    requires
        one_side_each(sides),
    ensures
        one_side_each(in_order(sides, side_lt())),
    decreases sides.len(),
{
    if sides.len() > 0 {
        let rest = sides.drop_last();
        assert forall|i: int, j: int| 0 <= i < j < rest.len() implies (#[trigger] rest[i]).tenant
            != (#[trigger] rest[j]).tenant by {
            assert(sides[i].tenant != sides[j].tenant);
        }
        lemma_order_keeps_apart(rest);
        let ordered = in_order(rest, side_lt());
        assert forall|k: int| 0 <= k < ordered.len() implies (#[trigger] ordered[k]).tenant
            != sides.last().tenant by {
            assert(ordered.contains(ordered[k]));
            lemma_in_order_members(rest, side_lt(), ordered[k]);
            let m = choose|m: int| 0 <= m < rest.len() && rest[m] == ordered[k];
            assert(sides[m].tenant != sides[sides.len() - 1].tenant);
        }
        lemma_placed_apart(ordered, sides.last());
    }
}

// ---------------------------------------------------------------------------
// Value legs.
// ---------------------------------------------------------------------------
/// The text under a name of an intent's inputs.
pub open spec fn declares(intent: Intent, name: Seq<char>, text: Seq<char>) -> bool {
    text.len() > 0 && lookup(intent.inputs@, name) == Some(Json::Str(text))
}

/// Whether an intent declares a value leg of a trade.
pub open spec fn declares_leg(intent: Intent, trade_id: Seq<char>, leg: LegContent) -> bool {
    &&& declares(intent, "trade_id"@, trade_id)
    &&& declares(intent, "value_resource"@, leg.resource)
    &&& declares(intent, "value_amount"@, leg.amount)
    &&& declares(intent, "value_to_subject"@, leg.to_subject)
}

/// The balance that a state holds, if it can be read: none is zero.
pub open spec fn balance_held(state: ResourceState) -> Option<u128> {
    if state.state_type != StateType::FungibleBalance {
        Some(0)
    } else {
        match member(state.payload@, "balance"@) {
            None => Some(0),
            Some(Json::Str(text)) => amount_of(text),
            Some(_) => None,
        }
    }
}

/// How much a balance falls by with an event.
pub open spec fn falls_by(event: Event) -> int {
    let change = balance_held(event.before.state)->0 - balance_held(event.after.state)->0;
    if change > 0 {
        change
    } else {
        0
    }
}

/// Whether an event raises a balance that a subject holds.
pub open spec fn raises_for(event: Event, subject: Seq<char>) -> bool {
    &&& balance_held(event.before.state)->0 < balance_held(event.after.state)->0
    &&& member(event.after.state.payload@, "subject"@) == Some(Json::Str(subject))
}

/// Whether two events of one transfer carry a value leg out: the balance falls
/// by the leg's amount in all, one of them raises the recipient's, and the leg
/// names both events, in the order of their ids.
pub open spec fn carry_out(a: Event, b: Event, leg: LegContent) -> bool {
    &&& a.intent_id.0@ == b.intent_id.0@
    &&& a.operation.0@ == "balance.transfer"@
    &&& leg.tenant == a.tenant_id.0@
    &&& leg.resource == a.resource_id.0@
    &&& amount_of(leg.amount) is Some
    &&& amount_of(leg.amount)->0 == falls_by(a) + falls_by(b)
    &&& raises_for(a, leg.to_subject) || raises_for(b, leg.to_subject)
    &&& leg.event_ids == seq![a.event_id.0@, b.event_id.0@] || leg.event_ids
        == seq![b.event_id.0@, a.event_id.0@]
    &&& !text_lt(leg.event_ids[1], leg.event_ids[0])
}

/// Whether a value leg stands on a declaration and a transfer of a batch.
pub open spec fn stands_on(
    leg: LegContent,
    trade_id: Seq<char>,
    batch: IngestBatch,
    d: int,
    i: int,
    j: int,
) -> bool {
    &&& 0 <= d < batch.settle_intents@.len()
    &&& 0 <= i < batch.events@.len()
    &&& 0 <= j < batch.events@.len()
    &&& declares_leg(batch.settle_intents@[d], trade_id, leg)
    &&& carry_out(batch.events@[i], batch.events@[j], leg)
    &&& pins(leg.commit, batch.commit)
}

/// Whether a value leg is one of a batch.
pub open spec fn founded(leg: LegContent, trade_id: Seq<char>, batch: IngestBatch) -> bool {
    exists|d: int, i: int, j: int| #[trigger] stands_on(leg, trade_id, batch, d, i, j)
}

/// After a successful ingest a record has the value legs that it had, and after
/// them only legs that an intent of the batch declares for this trade and that
/// a transfer of the batch carries out, pinned by the batch's commit.
pub proof fn law_value_legs_are_declared_and_carried_out(
    before: Map<Seq<char>, RecordContent>,
    after: Map<Seq<char>, RecordContent>,
    batch: IngestBatch,
    trade_id: Seq<char>,
)
    requires
        ingested(Ok(()), before, after, batch),
        after.contains_key(trade_id),
    ensures
        ({
            let earlier = if before.contains_key(trade_id) {
                before[trade_id].legs
            } else {
                Seq::empty()
            };
            let legs = after[trade_id].legs;
            &&& earlier.len() <= legs.len()
            &&& legs.take(earlier.len() as int) == earlier
            &&& forall|k: int|
                earlier.len() <= k < legs.len() ==> founded(#[trigger] legs[k], trade_id, batch)
        }),
{
    let events = batch.events@;
    let commit = commit_kept(batch.commit);
    let middle = after_trades(before, events, commit);
    let record = record_of(before, trade_id);
    let named = trade_events(events, trade_id);
    assert(!stuck(before, events, commit, trade_id));
    lemma_owed_lock(record, events, trade_id);
    let locked = after_locks(record, named);
    lemma_owed_settlement(locked, events, trade_id, commit);
    lemma_owed_release(after_settles(locked, named, commit).0, events, trade_id);
    let base = record_of(middle, trade_id);
    let legs = batch_legs(batch);
    assert forall|k: int| 0 <= k < legs.len() implies founded(
        (#[trigger] legs[k]).1,
        legs[k].0,
        batch,
    ) by {
        lemma_leg_founded(batch, k);
    }
    lemma_legs_founded(base, legs, trade_id, batch);
}

proof fn lemma_legs_founded(
    record: RecordContent,
    legs: Seq<(Seq<char>, LegContent)>,
    trade_id: Seq<char>,
    batch: IngestBatch,
)
    requires
        forall|k: int|
            0 <= k < legs.len() ==> founded((#[trigger] legs[k]).1, legs[k].0, batch),
    ensures
        ({
            let r = with_legs(record, legs, trade_id).legs;
            let n = record.legs.len();
            &&& n <= r.len()
            &&& r.take(n as int) == record.legs
            &&& forall|k: int| n <= k < r.len() ==> founded(#[trigger] r[k], trade_id, batch)
        }),
    decreases legs.len(),
{
    let r = with_legs(record, legs, trade_id).legs;
    let n = record.legs.len() as int;
    if legs.len() == 0 {
        assert(r.take(n) =~= record.legs);
    } else {
        let rest = legs.drop_last();
        assert forall|k: int| 0 <= k < rest.len() implies founded(
            (#[trigger] rest[k]).1,
            rest[k].0,
            batch,
        ) by {
            assert(rest[k] == legs[k]);
        }
        lemma_legs_founded(record, rest, trade_id, batch);
        let earlier = with_legs(record, rest, trade_id).legs;
        if legs.last().0 == trade_id {
            assert(r.take(n) =~= earlier.take(n));
            assert forall|k: int| n <= k < r.len() implies founded(
                #[trigger] r[k],
                trade_id,
                batch,
            ) by {
                if k < earlier.len() {
                    assert(r[k] == earlier[k]);
                } else {
                    assert(founded(legs[legs.len() - 1].1, legs[legs.len() - 1].0, batch));
                }
            }
        }
    }
}

proof fn lemma_declaration_source(intents: Seq<Intent>, declared: DeclarationContent) -> (at: int)
    requires
        declarations(intents).contains(declared),
    ensures
        0 <= at < intents.len(),
        declared == declaration_of(intents[at]),
        value_leg_declared(intents[at]),
    decreases intents.len(),
{
    let list = declarations(intents);
    let earlier = declarations(intents.drop_last());
    let k = choose|k: int| 0 <= k < list.len() && list[k] == declared;
    if k < earlier.len() {
        assert(earlier[k] == declared);
        lemma_declaration_source(intents.drop_last(), declared)
    } else {
        intents.len() - 1
    }
}

proof fn lemma_pair_source(
    events: Seq<Event>,
    intent_ids: Seq<Seq<char>>,
    pair: PairContent,
) -> (id: Seq<char>)
    requires
        pairs_along(events, intent_ids).contains(pair),
    ensures
        moves_value(events, id),
        pair == pair_of(group(events, id)[0], group(events, id)[1]),
    decreases intent_ids.len(),
{
    let list = pairs_along(events, intent_ids);
    let earlier = pairs_along(events, intent_ids.drop_last());
    let k = choose|k: int| 0 <= k < list.len() && list[k] == pair;
    if k < earlier.len() {
        assert(earlier[k] == pair);
        lemma_pair_source(events, intent_ids.drop_last(), pair)
    } else {
        intent_ids.last()
    }
}

proof fn lemma_leg_founded(batch: IngestBatch, at: int)
    requires
        pairs_sound(batch.events@),
        declarations_sound(batch.settle_intents@),
        0 <= at < batch_legs(batch).len(),
    ensures
        founded(batch_legs(batch)[at].1, batch_legs(batch)[at].0, batch),
{
    let events = batch.events@;
    let intents = batch.settle_intents@;
    let declared = in_order(declarations(intents), declaration_lt());
    let pairs = in_order(pairs_in(events), pair_lt());
    let (d, p) = lemma_leg_sources(declared, pairs, commit_kept(batch.commit), at);
    assert(pairs.contains(pairs[p]));
    lemma_in_order_members(pairs_in(events), pair_lt(), pairs[p]);
    assert(declared.contains(declared[d]));
    lemma_in_order_members(declarations(intents), declaration_lt(), declared[d]);
    let by = lemma_declaration_source(intents, declared[d]);
    assert(declaration_complaint(intents[by]) is None);
    let id = lemma_pair_source(events, distinct(intents_of(events)), pairs[p]);
    assert(pair_complaint(events, id) is None);
    let i = lemma_group_within(events, id, 0);
    let j = lemma_group_within(events, id, 1);
    let (trade_id, leg) = batch_legs(batch)[at];
    assert(leg.resource == pairs[p].key.resource);
    lemma_text_lt_total(events[i].event_id.0@, events[j].event_id.0@);
    lemma_text_lt_irreflexive(events[i].event_id.0@);
    if text_lt(events[j].event_id.0@, events[i].event_id.0@) {
        lemma_text_lt_asymmetric(events[j].event_id.0@, events[i].event_id.0@);
    }
    assert(carry_out(events[i], events[j], leg));
    assert(stands_on(leg, trade_id, batch, by, i, j));
}

/// Whether two declarations are of the same value: the same amount of the same
/// resource for the same recipient.
pub open spec fn same_value(a: Intent, b: Intent) -> bool {
    &&& lookup(a.inputs@, "value_resource"@) == lookup(b.inputs@, "value_resource"@)
    &&& lookup(a.inputs@, "value_to_subject"@) == lookup(b.inputs@, "value_to_subject"@)
    &&& lookup(a.inputs@, "value_amount"@) == lookup(b.inputs@, "value_amount"@)
}

/// A value leg that an intent declares for a trade, and that a transfer of the
/// batch carries out, is found in the trade's record after a successful ingest,
/// if no declaration of the same value is for another trade.
pub proof fn law_carried_out_declarations_become_legs(
    before: Map<Seq<char>, RecordContent>,
    after: Map<Seq<char>, RecordContent>,
    batch: IngestBatch,
    trade_id: Seq<char>,
    leg: LegContent,
    d: int,
    i: int,
    j: int,
)
    requires
        ingested(Ok(()), before, after, batch),
        0 <= d < batch.settle_intents@.len(),
        0 <= i < j < batch.events@.len(),
        declares_leg(batch.settle_intents@[d], trade_id, leg),
        carry_out(batch.events@[i], batch.events@[j], leg),
        forall|k: int|
            0 <= k < batch.events@.len() && (#[trigger] batch.events@[k]).intent_id.0@
                == batch.events@[i].intent_id.0@ ==> k == i || k == j,
        raises_for(batch.events@[j], leg.to_subject),
        batch.events@[j].after.state.state_type == StateType::FungibleBalance,
        forall|k: int|
            0 <= k < batch.settle_intents@.len() && same_value(
                #[trigger] batch.settle_intents@[k],
                batch.settle_intents@[d],
            ) ==> declares(batch.settle_intents@[k], "trade_id"@, trade_id),
    ensures
        after.contains_key(trade_id),
        exists|k: int|
            0 <= k < after[trade_id].legs.len() && (#[trigger] after[trade_id].legs[k]).resource
                == leg.resource && after[trade_id].legs[k].to_subject == leg.to_subject
                && amount_of(after[trade_id].legs[k].amount) == amount_of(leg.amount),
{
    let events = batch.events@;
    let intents = batch.settle_intents@;
    let commit = commit_kept(batch.commit);
    let id = events[i].intent_id.0@;
    let key = declaration_of(intents[d]).key;
    assert(declaration_complaint(intents[d]) is None);
    assert(pair_complaint(events, id) is None);
    lemma_pair_at(events, id, i, j);
    assert(moves_value(events, id));
    let pair = pair_of(group(events, id)[0], group(events, id)[1]);
    assert(pair.key == key);
    law_distinct_members_are_the_members(intents_of(events));
    assert(intents_of(events)[i] == id);
    assert(distinct(intents_of(events)).contains(id));
    lemma_pair_listed(events, distinct(intents_of(events)), id);
    lemma_declaration_listed(intents, d);
    let declared = declarations(intents);
    let pairs = pairs_in(events);
    let legs = batch_legs(batch);
    law_value_legs_match_common_keys(intents, pairs, commit, key);
    lemma_counted(declared, |x: DeclarationContent| x.key, declaration_of(intents[d]));
    lemma_counted(pairs, |x: PairContent| x.key, pair);
    let by_leg = |entry: (Seq<char>, LegContent)| key_of(entry.1);
    assert(times_matched(legs, key) > 0);
    let k = lemma_found(legs, by_leg, key);
    let ordered = in_order(declared, declaration_lt());
    let (a, b) = lemma_leg_sources(ordered, in_order(pairs, pair_lt()), commit, k);
    assert(ordered.contains(ordered[a]));
    lemma_in_order_members(declared, declaration_lt(), ordered[a]);
    let by = lemma_declaration_source(intents, ordered[a]);
    assert(declaration_complaint(intents[by]) is None);
    law_amounts_are_plain_numbers(leg.amount);
    law_amounts_are_plain_numbers(ordered[a].amount);
    lemma_same_text(ordered[a].amount, leg.amount);
    assert(same_value(intents[by], intents[d]));
    assert(legs[k].0 == trade_id);
    let base = record_of(after_trades(before, events, commit), trade_id);
    lemma_leg_kept(base, legs, trade_id, k);
    let m = choose|m: int|
        0 <= m < with_legs(base, legs, trade_id).legs.len() && #[trigger] with_legs(
            base,
            legs,
            trade_id,
        ).legs[m] == legs[k].1;
    assert(has_legs(legs, trade_id));
    assert(after[trade_id].legs[m] == legs[k].1);
}

/// Two texts of one amount are the same.
proof fn lemma_same_text(a: Seq<char>, b: Seq<char>)
    requires
        amount_of(a) is Some,
        amount_of(a) == amount_of(b),
    ensures
        a == b,
{
}

proof fn lemma_pair_at(events: Seq<Event>, id: Seq<char>, i: int, j: int)
    requires
        0 <= i < j < events.len(),
        events[i].intent_id.0@ == id,
        events[j].intent_id.0@ == id,
        events[i].operation.0@ == "balance.transfer"@,
        forall|k: int|
            0 <= k < events.len() && (#[trigger] events[k]).intent_id.0@ == id ==> k == i || k
                == j,
        pair_complaint(events, id) is None,
    ensures
        group(events, id).len() == 2,
        group(events, id)[0] == events[i],
        group(events, id)[1] == events[j],
{
    lemma_two(events, id, i, j);
    let (a, b) = lemma_members_in_order(events, id, 0, 1);
    assert(a == i && b == j);
    assert(moves_value(events, id));
}

proof fn lemma_pair_listed(events: Seq<Event>, intent_ids: Seq<Seq<char>>, id: Seq<char>)
    requires
        intent_ids.contains(id),
        moves_value(events, id),
    ensures
        pairs_along(events, intent_ids).contains(
            pair_of(group(events, id)[0], group(events, id)[1]),
        ),
    decreases intent_ids.len(),
{
    let pair = pair_of(group(events, id)[0], group(events, id)[1]);
    let list = pairs_along(events, intent_ids);
    let rest = intent_ids.drop_last();
    let k = choose|k: int| 0 <= k < intent_ids.len() && intent_ids[k] == id;
    if k < rest.len() {
        assert(rest[k] == id);
        lemma_pair_listed(events, rest, id);
        let earlier = pairs_along(events, rest);
        let m = choose|m: int| 0 <= m < earlier.len() && earlier[m] == pair;
        assert(list[m] == pair);
    } else {
        assert(list[list.len() - 1] == pair);
    }
}

proof fn lemma_declaration_listed(intents: Seq<Intent>, d: int)
    requires
        0 <= d < intents.len(),
        value_leg_declared(intents[d]),
    ensures
        declarations(intents).contains(declaration_of(intents[d])),
    decreases intents.len(),
{
    let list = declarations(intents);
    let rest = intents.drop_last();
    if d < rest.len() {
        assert(rest[d] == intents[d]);
        lemma_declaration_listed(rest, d);
        let earlier = declarations(rest);
        let m = choose|m: int| 0 <= m < earlier.len() && earlier[m] == declaration_of(intents[d]);
        assert(list[m] == earlier[m]);
    } else {
        assert(list[list.len() - 1] == declaration_of(intents[d]));
    }
}

proof fn lemma_counted<T, U>(items: Seq<T>, f: spec_fn(T) -> U, x: T)
    requires
        items.contains(x),
    ensures
        items.map_values(f).to_multiset().count(f(x)) > 0,
{
    broadcast use vstd::seq_lib::group_to_multiset_ensures;

    let k = choose|k: int| 0 <= k < items.len() && items[k] == x;
    assert(items.map_values(f)[k] == f(x));
    assert(items.map_values(f).contains(f(x)));
}

proof fn lemma_found<T, U>(items: Seq<T>, f: spec_fn(T) -> U, u: U) -> (k: int)
    requires
        items.map_values(f).to_multiset().count(u) > 0,
    ensures
        0 <= k < items.len(),
        f(items[k]) == u,
{
    broadcast use vstd::seq_lib::group_to_multiset_ensures;

    let mapped = items.map_values(f);
    assert(mapped.contains(u));
    choose|k: int| 0 <= k < mapped.len() && mapped[k] == u
}

proof fn lemma_leg_kept(
    record: RecordContent,
    legs: Seq<(Seq<char>, LegContent)>,
    trade_id: Seq<char>,
    k: int,
)
    requires
        0 <= k < legs.len(),
        legs[k].0 == trade_id,
    ensures
        exists|m: int|
            0 <= m < with_legs(record, legs, trade_id).legs.len() && #[trigger] with_legs(
                record,
                legs,
                trade_id,
            ).legs[m] == legs[k].1,
    decreases legs.len(),
{
    let rest = legs.drop_last();
    let earlier = with_legs(record, rest, trade_id).legs;
    let all = with_legs(record, legs, trade_id).legs;
    if k < rest.len() {
        assert(rest[k] == legs[k]);
        lemma_leg_kept(record, rest, trade_id, k);
        let m = choose|m: int| 0 <= m < earlier.len() && #[trigger] earlier[m] == rest[k].1;
        assert(all[m] == earlier[m]);
    } else {
        assert(all[all.len() - 1] == legs[k].1);
    }
}

} // verus!
