//! The trade index: committed batches projected into trade records.
//!
//! A batch touches the trades that its events and declarations name, and no
//! others; what becomes of a trade's record depends on that record and the
//! batch alone. So a batch can be applied to the touched records only, and
//! replaying all batches from scratch gives the same index as applying them
//! one by one as they arrive.
use vstd::prelude::*;

use crate::domain::commit::{Commit, CommitRef, ScopeKind, Signed};
use crate::domain::event::Event;
use crate::domain::ids::{EventId, Operation, ResourceId};
use crate::domain::intent::{value_leg_declared, Intent};
use crate::domain::state::ResourceState;
use crate::index::error::IndexError;
use crate::index::order::{in_order, lemma_placed_at};
use crate::index::table::Table;
use crate::index::trade::{
    event_texts, fresh_record, leg_contents, ref_contents, resource_texts, side_contents,
    LegContent, RecordContent, RefContent, SideContent, TradeEventRef, TradeRecord, TradeSide,
    TradeStatus, TradeValueLeg,
};
use crate::index::value::{
    attributed, declaration_complaint, declarations_sound, filled, first_faulty_declaration,
    input_text, intent_str, least_faulty_pair, legs_between, lemma_push_contains, match_value_legs,
    nonempty, pair_complaint, pairs_in, pairs_sound, recover_value_pairs, value_refused,
};
use crate::text::{
    increasing, insert_sorted, join3, lemma_text_lt_asymmetric, lemma_text_lt_irreflexive,
    same_text, text_less, text_lt, texts,
};

verus! {

/// One committed batch: its events, the settle intents behind them, and the
/// commit that pinned it.
#[derive(Debug, Clone)]
pub struct IngestBatch {
    /// The events.
    pub events: Vec<Event>,
    /// The settle intents, whose declarations attribute value legs.
    pub settle_intents: Vec<Intent>,
    /// The commit.
    pub commit: Signed<Commit>,
}

// ---------------------------------------------------------------------------
// Commits.
// ---------------------------------------------------------------------------
/// Why a commit does not pin a trade batch, if it does not.
pub open spec fn commit_complaint(signed: Signed<Commit>) -> Option<Seq<char>> {
    if signed.body.scope.kind != ScopeKind::Tenant {
        Some(signed.body.commit_id.0@)
    } else if signed.body.scope.tenant_id is None {
        Some("tenant-scoped commit is missing its tenant id"@)
    } else {
        None
    }
}

/// What a record keeps of a commit.
pub open spec fn commit_kept(signed: Signed<Commit>) -> CommitRef {
    CommitRef {
        commit_id: signed.body.commit_id,
        sequence: signed.body.sequence,
        state_root: signed.body.next_state_root,
        signature: signed.signature,
    }
}

/// Whether a result refuses a commit for the given reason.
pub open spec fn commit_refused<T>(r: Result<T, IndexError>, complaint: Seq<char>) -> bool {
    match r {
        Err(IndexError::NonTenantCommit(message)) => message@ == complaint,
        _ => false,
    }
}

/// What a record keeps of a commit of one tenant.
pub fn commit_ref_from_signed(signed: &Signed<Commit>) -> (r: Result<CommitRef, IndexError>)
    ensures
        match commit_complaint(*signed) {
            Some(complaint) => commit_refused(r, complaint),
            None => r == Ok::<CommitRef, IndexError>(commit_kept(*signed)),
        },
{
    match signed.body.scope.kind {
        ScopeKind::Tenant => {},
        ScopeKind::Ledger => {
            return Err(IndexError::NonTenantCommit(signed.body.commit_id.0.clone()));
        },
    }
    if signed.body.scope.tenant_id.is_none() {
        return Err(
            IndexError::NonTenantCommit(
                "tenant-scoped commit is missing its tenant id".to_owned(),
            ),
        );
    }
    Ok(
        CommitRef {
            commit_id: signed.body.commit_id.clone(),
            sequence: signed.body.sequence,
            state_root: signed.body.next_state_root,
            signature: signed.signature.clone(),
        },
    )
}

// ---------------------------------------------------------------------------
// Trade events.
// ---------------------------------------------------------------------------
/// Whether an event locks an asset for a trade.
pub open spec fn locks(event: Event) -> bool {
    event.operation.0@ == "trade.lock"@
}

/// Whether an event settles an asset of a trade.
pub open spec fn settles(event: Event) -> bool {
    event.operation.0@ == "trade.settle"@
}

/// Whether an event releases an asset of a trade.
pub open spec fn unlocks(event: Event) -> bool {
    event.operation.0@ == "trade.unlock"@
}

/// Whether an event belongs to a trade.
pub open spec fn of_trade(event: Event) -> bool {
    locks(event) || settles(event) || unlocks(event)
}

/// The trade that an event names: a lock in the state after it, a settlement
/// or release in the state before it.
pub open spec fn trade_named(event: Event) -> Option<Seq<char>> {
    if locks(event) {
        filled(event.after.state@.trade_id())
    } else if settles(event) || unlocks(event) {
        filled(event.before.state@.trade_id())
    } else {
        None
    }
}

/// Whether an event belongs to a trade and names none.
pub open spec fn nameless(event: Event) -> bool {
    of_trade(event) && trade_named(event) is None
}

/// The complaint about an event that names no trade.
pub open spec fn nameless_complaint(event: Event) -> Seq<char> {
    if locks(event) {
        "trade.lock event `"@ + event.event_id.0@
            + "` is missing `trade_id` in its after state"@
    } else {
        "trade event `"@ + event.event_id.0@ + "` is missing `trade_id` in its before state"@
    }
}

/// Whether a result complains about an event that names no trade.
pub open spec fn trade_missing<T>(r: Result<T, IndexError>, complaint: Seq<char>) -> bool {
    match r {
        Err(IndexError::MissingTradeId(message)) => message@ == complaint,
        _ => false,
    }
}

/// The trade that an event names, if it belongs to one.
pub fn trade_id_of(event: &Event) -> (r: Result<Option<String>, IndexError>)
    ensures
        if nameless(*event) {
            trade_missing(r, nameless_complaint(*event))
        } else {
            match trade_named(*event) {
                Some(id) => r matches Ok(Some(text)) && text@ == id,
                None => r == Ok::<Option<String>, IndexError>(None),
            }
        },
{
    if event.operation.is("trade.lock") {
        return match nonempty(event.after.state.trade_id()) {
            Some(id) => Ok(Some(id)),
            None => Err(
                IndexError::MissingTradeId(
                    join3(
                        "trade.lock event `",
                        event.event_id.as_str(),
                        "` is missing `trade_id` in its after state",
                    ),
                ),
            ),
        };
    }
    if event.operation.is("trade.settle") || event.operation.is("trade.unlock") {
        return match nonempty(event.before.state.trade_id()) {
            Some(id) => Ok(Some(id)),
            None => Err(
                IndexError::MissingTradeId(
                    join3(
                        "trade event `",
                        event.event_id.as_str(),
                        "` is missing `trade_id` in its before state",
                    ),
                ),
            ),
        };
    }
    Ok(None)
}

/// The events of a trade, in order.
pub open spec fn trade_events(events: Seq<Event>, trade_id: Seq<char>) -> Seq<Event>
    decreases events.len(),
{
    if events.len() == 0 {
        Seq::empty()
    } else {
        let earlier = trade_events(events.drop_last(), trade_id);
        if trade_named(events.last()) == Some(trade_id) {
            earlier.push(events.last())
        } else {
            earlier
        }
    }
}

/// Whether a batch has events of a trade.
pub open spec fn concerned(events: Seq<Event>, trade_id: Seq<char>) -> bool {
    exists|i: int| 0 <= i < events.len() && trade_named(#[trigger] events[i]) == Some(trade_id)
}

// ---------------------------------------------------------------------------
// Records.
// ---------------------------------------------------------------------------
/// The reference that a record keeps of an event.
pub open spec fn ref_to(event: Event) -> RefContent {
    RefContent {
        event_id: event.event_id.0@,
        tenant_id: event.tenant_id.0@,
        operation: event.operation.0@,
    }
}

/// A record in which an event sets the status.
pub open spec fn noted(record: RecordContent, status: TradeStatus, event: Event) -> RecordContent {
    RecordContent { status, events: record.events.push(ref_to(event)), ..record }
}

/// A record after the locks among events.
pub open spec fn after_locks(record: RecordContent, events: Seq<Event>) -> RecordContent
    decreases events.len(),
{
    if events.len() == 0 {
        record
    } else {
        let earlier = after_locks(record, events.drop_last());
        if locks(events.last()) {
            noted(earlier, TradeStatus::Open, events.last())
        } else {
            earlier
        }
    }
}

/// A record after the releases among events.
pub open spec fn after_unlocks(record: RecordContent, events: Seq<Event>) -> RecordContent
    decreases events.len(),
{
    if events.len() == 0 {
        record
    } else {
        let earlier = after_unlocks(record, events.drop_last());
        if unlocks(events.last()) {
            noted(earlier, TradeStatus::Cancelled, events.last())
        } else {
            earlier
        }
    }
}

/// The position of the first side of a tenant.
pub open spec fn side_position(sides: Seq<SideContent>, tenant: Seq<char>) -> Option<int>
    decreases sides.len(),
{
    if sides.len() == 0 {
        None
    } else {
        match side_position(sides.drop_last(), tenant) {
            Some(at) => Some(at),
            None => if sides.last().tenant == tenant {
                Some(sides.len() - 1)
            } else {
                None
            },
        }
    }
}

/// The owner that a state names.
pub open spec fn named_owner(state: ResourceState) -> Option<Seq<char>> {
    filled(state@.owner())
}

/// Whether a settlement names the owners before and after.
pub open spec fn owners_named(event: Event) -> bool {
    named_owner(event.before.state) is Some && named_owner(event.after.state) is Some
}

/// The complaint about a settlement that does not.
pub open spec fn owner_complaint() -> Seq<char> {
    "trade settle event state is missing a non-empty `owner`"@
}

/// A side with one more settlement.
pub open spec fn side_extended(side: SideContent, event: Event, commit: CommitRef) -> SideContent {
    let asset = event.resource_id.0@;
    SideContent {
        assets: if side.assets.contains(asset) {
            side.assets
        } else {
            side.assets.push(asset)
        },
        commits: side.commits.insert(asset, commit),
        event_ids: side.event_ids.push(event.event_id.0@),
        ..side
    }
}

/// A side that begins with a settlement.
pub open spec fn side_begun(event: Event, commit: CommitRef) -> SideContent {
    let asset = event.resource_id.0@;
    SideContent {
        tenant: event.tenant_id.0@,
        assets: seq![asset],
        from_owner: named_owner(event.before.state)->0,
        to_owner: named_owner(event.after.state)->0,
        commit,
        commits: Map::empty().insert(asset, commit),
        event_ids: seq![event.event_id.0@],
    }
}

/// Sides with one more settlement: it extends the side of its tenant, or
/// begins one.
pub open spec fn with_settlement(
    sides: Seq<SideContent>,
    event: Event,
    commit: CommitRef,
) -> Seq<SideContent> {
    match side_position(sides, event.tenant_id.0@) {
        Some(at) => sides.update(at, side_extended(sides[at], event, commit)),
        None => sides.push(side_begun(event, commit)),
    }
}

/// A record after the settlements among events, and whether all of them name
/// their owners; the first that does not ends it.
pub open spec fn after_settles(record: RecordContent, events: Seq<Event>, commit: CommitRef) -> (
    RecordContent,
    bool,
)
    decreases events.len(),
{
    if events.len() == 0 {
        (record, true)
    } else {
        let (earlier, sound) = after_settles(record, events.drop_last(), commit);
        let event = events.last();
        if !sound || !settles(event) {
            (earlier, sound)
        } else if !owners_named(event) {
            (RecordContent { status: TradeStatus::Settled, ..earlier }, false)
        } else {
            (
                noted(
                    RecordContent {
                        sides: with_settlement(earlier.sides, event, commit),
                        ..earlier
                    },
                    TradeStatus::Settled,
                    event,
                ),
                true,
            )
        }
    }
}

/// The order of sides: that of their tenants.
pub open spec fn side_lt() -> spec_fn(SideContent, SideContent) -> bool {
    |a: SideContent, b: SideContent| text_lt(a.tenant, b.tenant)
}

/// A record after a trade's events, and whether they were all sound: locks,
/// then settlements, then releases, with the sides put in order at the end.
pub open spec fn advanced(record: RecordContent, events: Seq<Event>, commit: CommitRef) -> (
    RecordContent,
    bool,
) {
    let (settled, sound) = after_settles(after_locks(record, events), events, commit);
    if sound {
        let released = after_unlocks(settled, events);
        (RecordContent { sides: in_order(released.sides, side_lt()), ..released }, true)
    } else {
        (settled, false)
    }
}

/// The references that a record keeps of a value leg's events.
pub open spec fn leg_refs(leg: LegContent) -> Seq<RefContent> {
    leg.event_ids.map_values(
        |id: Seq<char>|
            RefContent { event_id: id, tenant_id: leg.tenant, operation: "balance.transfer"@ },
    )
}

/// A record with one more value leg.
pub open spec fn with_leg(record: RecordContent, leg: LegContent) -> RecordContent {
    RecordContent {
        events: record.events + leg_refs(leg),
        legs: record.legs.push(leg),
        ..record
    }
}

/// A record with the value legs that belong to its trade.
pub open spec fn with_legs(
    record: RecordContent,
    legs: Seq<(Seq<char>, LegContent)>,
    trade_id: Seq<char>,
) -> RecordContent
    decreases legs.len(),
{
    if legs.len() == 0 {
        record
    } else {
        let earlier = with_legs(record, legs.drop_last(), trade_id);
        if legs.last().0 == trade_id {
            with_leg(earlier, legs.last().1)
        } else {
            earlier
        }
    }
}

// ---------------------------------------------------------------------------
// The index.
// ---------------------------------------------------------------------------
/// The content of an index: the records under their trades.
pub open spec fn records(state: Table<TradeRecord>) -> Map<Seq<char>, RecordContent> {
    state@.map_values(|record: TradeRecord| record@)
}

/// The record of a trade, or a fresh one.
pub open spec fn record_of(
    state: Map<Seq<char>, RecordContent>,
    trade_id: Seq<char>,
) -> RecordContent {
    if state.contains_key(trade_id) {
        state[trade_id]
    } else {
        fresh_record(trade_id)
    }
}

/// What a batch's events make of a trade's record.
pub open spec fn advance_of(
    state: Map<Seq<char>, RecordContent>,
    events: Seq<Event>,
    commit: CommitRef,
    trade_id: Seq<char>,
) -> (RecordContent, bool) {
    advanced(record_of(state, trade_id), trade_events(events, trade_id), commit)
}

/// Whether a trade's events do not go through.
pub open spec fn stuck(
    state: Map<Seq<char>, RecordContent>,
    events: Seq<Event>,
    commit: CommitRef,
    trade_id: Seq<char>,
) -> bool {
    concerned(events, trade_id) && !advance_of(state, events, commit, trade_id).1
}

/// Whether a trade is the first, in text order, whose events do not go
/// through.
pub open spec fn least_stuck(
    state: Map<Seq<char>, RecordContent>,
    events: Seq<Event>,
    commit: CommitRef,
    trade_id: Seq<char>,
) -> bool {
    stuck(state, events, commit, trade_id) && forall|other: Seq<char>| #[trigger]
        stuck(state, events, commit, other) ==> !text_lt(other, trade_id)
}

/// An index after the events of a batch.
pub open spec fn after_trades(
    state: Map<Seq<char>, RecordContent>,
    events: Seq<Event>,
    commit: CommitRef,
) -> Map<Seq<char>, RecordContent> {
    Map::new(
        |id: Seq<char>| state.contains_key(id) || concerned(events, id),
        |id: Seq<char>|
            if concerned(events, id) {
                advance_of(state, events, commit, id).0
            } else {
                state[id]
            },
    )
}

/// An index after the events of a batch up to those of one trade.
pub open spec fn after_some_trades(
    state: Map<Seq<char>, RecordContent>,
    events: Seq<Event>,
    commit: CommitRef,
    last: Seq<char>,
) -> Map<Seq<char>, RecordContent> {
    Map::new(
        |id: Seq<char>| state.contains_key(id) || (concerned(events, id) && !text_lt(last, id)),
        |id: Seq<char>|
            if concerned(events, id) && !text_lt(last, id) {
                advance_of(state, events, commit, id).0
            } else {
                state[id]
            },
    )
}

/// Whether value legs belong to a trade.
pub open spec fn has_legs(legs: Seq<(Seq<char>, LegContent)>, trade_id: Seq<char>) -> bool {
    exists|i: int| 0 <= i < legs.len() && (#[trigger] legs[i]).0 == trade_id
}

/// An index after value legs.
pub open spec fn after_legs(
    state: Map<Seq<char>, RecordContent>,
    legs: Seq<(Seq<char>, LegContent)>,
) -> Map<Seq<char>, RecordContent> {
    Map::new(
        |id: Seq<char>| state.contains_key(id) || has_legs(legs, id),
        |id: Seq<char>| with_legs(record_of(state, id), legs, id),
    )
}

/// The value legs of a batch, with the trades that they belong to.
pub open spec fn batch_legs(batch: IngestBatch) -> Seq<(Seq<char>, LegContent)> {
    legs_between(batch.settle_intents@, pairs_in(batch.events@), commit_kept(batch.commit))
}

/// An index after a sound batch.
pub open spec fn after_batch(
    state: Map<Seq<char>, RecordContent>,
    batch: IngestBatch,
) -> Map<Seq<char>, RecordContent> {
    after_legs(
        after_trades(state, batch.events@, commit_kept(batch.commit)),
        batch_legs(batch),
    )
}

/// Whether an event is the first that belongs to a trade and names none.
pub open spec fn first_nameless(events: Seq<Event>, at: int) -> bool {
    0 <= at < events.len() && nameless(events[at]) && forall|k: int|
        0 <= k < at ==> !nameless(#[trigger] events[k])
}

/// Whether every event that belongs to a trade names it.
pub open spec fn trades_named(events: Seq<Event>) -> bool {
    forall|k: int| 0 <= k < events.len() ==> !nameless(#[trigger] events[k])
}

/// Whether no trade's events are stuck.
pub open spec fn trades_sound(
    state: Map<Seq<char>, RecordContent>,
    events: Seq<Event>,
    commit: CommitRef,
) -> bool {
    forall|id: Seq<char>| !#[trigger] stuck(state, events, commit, id)
}

/// What comes of a batch: the result and the index after it. The commit, the
/// balance transfers and the trade names are checked before anything changes;
/// a settlement without owners leaves the trades up to its own applied, and a
/// malformed declaration leaves all of them applied.
pub open spec fn ingested(
    r: Result<(), IndexError>,
    before: Map<Seq<char>, RecordContent>,
    after: Map<Seq<char>, RecordContent>,
    batch: IngestBatch,
) -> bool {
    let events = batch.events@;
    let commit = commit_kept(batch.commit);
    if commit_complaint(batch.commit) is Some {
        commit_refused(r, commit_complaint(batch.commit)->0) && after == before
    } else if !pairs_sound(events) {
        after == before && exists|id: Seq<char>| #[trigger]
            least_faulty_pair(events, id) && value_refused(r, pair_complaint(events, id)->0)
    } else if !trades_named(events) {
        after == before && exists|at: int| #[trigger]
            first_nameless(events, at) && trade_missing(r, nameless_complaint(events[at]))
    } else if !trades_sound(before, events, commit) {
        value_refused(r, owner_complaint()) && exists|id: Seq<char>| #[trigger]
            least_stuck(before, events, commit, id) && after == after_some_trades(
                before,
                events,
                commit,
                id,
            )
    } else if !declarations_sound(batch.settle_intents@) {
        after == after_trades(before, events, commit) && exists|at: int| #[trigger]
            first_faulty_declaration(batch.settle_intents@, at) && value_refused(
                r,
                declaration_complaint(batch.settle_intents@[at])->0,
            )
    } else {
        r is Ok && after == after_batch(before, batch)
    }
}

// ---------------------------------------------------------------------------
// Building.
// ---------------------------------------------------------------------------
/// The events behind references.
pub open spec fn pointed(list: Seq<&Event>) -> Seq<Event> {
    list.map_values(|event: &Event| *event)
}

fn owner_of_state(state: &ResourceState) -> (r: Result<String, IndexError>)
    ensures
        match named_owner(*state) {
            Some(owner) => r matches Ok(text) && text@ == owner,
            None => value_refused(r, owner_complaint()),
        },
{
    match nonempty(state.owner()) {
        Some(owner) => Ok(owner),
        None => Err(
            IndexError::MalformedValue(
                "trade settle event state is missing a non-empty `owner`".to_owned(),
            ),
        ),
    }
}

fn find_side(sides: &Vec<TradeSide>, tenant: &str) -> (r: Option<usize>)
    ensures
        match side_position(side_contents(sides@), tenant@) {
            Some(at) => r matches Some(i) && i == at && 0 <= at < sides@.len(),
            None => r is None,
        },
{
    let ghost contents = side_contents(sides@);
    let mut i: usize = 0;
    assert(contents.take(0) =~= Seq::empty());
    while i < sides.len()
        invariant
            i <= sides@.len(),
            contents == side_contents(sides@),
            side_position(contents.take(i as int), tenant@) is None,
        decreases sides@.len() - i,
    {
        proof {
            assert(contents.take(i + 1).drop_last() =~= contents.take(i as int));
            assert(contents.take(i + 1).last() == sides@[i as int]@);
        }
        if same_text(sides[i].tenant.as_str(), tenant) {
            proof {
                lemma_side_found(contents, tenant@, i as int);
            }
            return Some(i);
        }
        i = i + 1;
    }
    assert(contents.take(i as int) =~= contents);
    None
}

/// A side found among the first ones is the first of all.
proof fn lemma_side_found(sides: Seq<SideContent>, tenant: Seq<char>, at: int)
    requires
        0 <= at < sides.len(),
        side_position(sides.take(at), tenant) is None,
        sides[at].tenant == tenant,
    ensures
        side_position(sides, tenant) == Some(at),
    decreases sides.len(),
{
    if at == sides.len() - 1 {
        assert(sides.take(at) =~= sides.drop_last());
    } else {
        assert(sides.drop_last().take(at) =~= sides.take(at));
        lemma_side_found(sides.drop_last(), tenant, at);
    }
}

fn has_asset(assets: &Vec<ResourceId>, asset: &ResourceId) -> (r: bool)
    ensures
        r == resource_texts(assets@).contains(asset.0@),
{
    let mut i: usize = 0;
    while i < assets.len()
        invariant
            i <= assets@.len(),
            forall|k: int| 0 <= k < i ==> (#[trigger] resource_texts(assets@)[k]) != asset.0@,
        decreases assets@.len() - i,
    {
        assert(resource_texts(assets@)[i as int] == assets@[i as int].0@);
        if assets[i].same(asset) {
            return true;
        }
        i = i + 1;
    }
    false
}

/// Extends the side of a settlement's tenant, or begins one.
fn upsert_side(record: &mut TradeRecord, event: &Event, commit: &CommitRef) -> (r: Result<
    (),
    IndexError,
>)
    ensures
        if owners_named(*event) {
            r is Ok && final(record)@ == (RecordContent {
                sides: with_settlement(old(record)@.sides, *event, *commit),
                ..old(record)@
            })
        } else {
            value_refused(r, owner_complaint()) && final(record)@ == old(record)@
        },
{
    let from_owner = match owner_of_state(&event.before.state) {
        Ok(owner) => owner,
        Err(failure) => return Err(failure),
    };
    let to_owner = match owner_of_state(&event.after.state) {
        Ok(owner) => owner,
        Err(failure) => return Err(failure),
    };
    let ghost sides = side_contents(record.sides@);
    match find_side(&record.sides, event.tenant_id.as_str()) {
        Some(at) => {
            let mut side = record.sides.remove(at);
            let ghost before = side@;
            assert(sides[at as int] == before);
            if !has_asset(&side.settle_assets, &event.resource_id) {
                side.settle_assets.push(event.resource_id.clone());
                assert(resource_texts(side.settle_assets@) =~= before.assets.push(
                    event.resource_id.0@,
                ));
            }
            side.settle_commits_by_asset.insert(event.resource_id.0.clone(), commit.clone());
            side.settle_event_ids.push(event.event_id.clone());
            proof {
                assert(event_texts(side.settle_event_ids@) =~= before.event_ids.push(
                    event.event_id.0@,
                ));
                assert(side@ =~= side_extended(before, *event, *commit));
            }
            record.sides.insert(at, side);
            assert(side_contents(record.sides@) =~= sides.update(at as int, side@));
        },
        None => {
            let mut settle_assets: Vec<ResourceId> = Vec::new();
            settle_assets.push(event.resource_id.clone());
            let mut settle_commits_by_asset: Table<CommitRef> = Table::new();
            settle_commits_by_asset.insert(event.resource_id.0.clone(), commit.clone());
            let mut settle_event_ids: Vec<EventId> = Vec::new();
            settle_event_ids.push(event.event_id.clone());
            let side = TradeSide {
                tenant: event.tenant_id.clone(),
                settle_assets,
                from_owner,
                to_owner,
                settle_commit: commit.clone(),
                settle_commits_by_asset,
                settle_event_ids,
            };
            proof {
                assert(resource_texts(settle_assets@) =~= seq![event.resource_id.0@]);
                assert(event_texts(settle_event_ids@) =~= seq![event.event_id.0@]);
                assert(side@ =~= side_begun(*event, *commit));
            }
            record.sides.push(side);
            assert(side_contents(record.sides@) =~= sides.push(side@));
        },
    }
    assert(record@ =~= (RecordContent {
        sides: with_settlement(old(record)@.sides, *event, *commit),
        ..old(record)@
    }));
    Ok(())
}

fn note(record: &mut TradeRecord, status: TradeStatus, event: &Event)
    ensures
        final(record)@ == noted(old(record)@, status, *event),
{
    let reference = TradeEventRef {
        event_id: event.event_id.clone(),
        tenant_id: event.tenant_id.clone(),
        operation: event.operation.clone(),
    };
    record.status = status;
    record.events.push(reference);
    proof {
        assert(reference@ == ref_to(*event));
        assert(ref_contents(record.events@) =~= old(record)@.events.push(ref_to(*event)));
        assert(record@ =~= noted(old(record)@, status, *event));
    }
}

/// Applies the events of one trade to its record: locks, settlements and
/// releases, in this order.
fn apply_trade_events(record: &mut TradeRecord, events: &Vec<&Event>, commit: &CommitRef) -> (r:
    Result<(), IndexError>)
    ensures
        ({
            let (settled, sound) = after_settles(
                after_locks(old(record)@, pointed(events@)),
                pointed(events@),
                *commit,
            );
            if sound {
                r is Ok && final(record)@ == after_unlocks(settled, pointed(events@))
            } else {
                value_refused(r, owner_complaint()) && final(record)@ == settled
            }
        }),
{
    let ghost list = pointed(events@);
    let mut i: usize = 0;
    assert(list.take(0) =~= Seq::empty());
    while i < events.len()
        invariant
            i <= events@.len(),
            list == pointed(events@),
            record@ == after_locks(old(record)@, list.take(i as int)),
        decreases events@.len() - i,
    {
        proof {
            lemma_take_next(list, i as int);
        }
        if events[i].operation.is("trade.lock") {
            note(record, TradeStatus::Open, events[i]);
        }
        i = i + 1;
    }
    assert(list.take(i as int) =~= list);
    let ghost locked = record@;
    let mut j: usize = 0;
    while j < events.len()
        invariant
            j <= events@.len(),
            list == pointed(events@),
            locked == after_locks(old(record)@, list),
            after_settles(locked, list.take(j as int), *commit) == (record@, true),
        decreases events@.len() - j,
    {
        proof {
            lemma_take_next(list, j as int);
        }
        if events[j].operation.is("trade.settle") {
            let ghost earlier = record@;
            match upsert_side(record, events[j], commit) {
                Ok(()) => {
                    note(record, TradeStatus::Settled, events[j]);
                },
                Err(failure) => {
                    record.status = TradeStatus::Settled;
                    proof {
                        assert(record@ =~= (RecordContent {
                            status: TradeStatus::Settled,
                            ..earlier
                        }));
                        lemma_settles_end(locked, list, *commit, j + 1);
                    }
                    return Err(failure);
                },
            }
        }
        j = j + 1;
    }
    assert(list.take(j as int) =~= list);
    let ghost settled = record@;
    let mut k: usize = 0;
    while k < events.len()
        invariant
            k <= events@.len(),
            list == pointed(events@),
            record@ == after_unlocks(settled, list.take(k as int)),
        decreases events@.len() - k,
    {
        proof {
            lemma_take_next(list, k as int);
        }
        if events[k].operation.is("trade.unlock") {
            note(record, TradeStatus::Cancelled, events[k]);
        }
        k = k + 1;
    }
    assert(list.take(k as int) =~= list);
    Ok(())
}

proof fn lemma_take_next<T>(list: Seq<T>, at: int)
    requires
        0 <= at < list.len(),
    ensures
        list.take(at + 1).drop_last() == list.take(at),
        list.take(at + 1).last() == list[at],
{
    assert(list.take(at + 1).drop_last() =~= list.take(at));
}

/// After the first settlement without owners nothing changes any more.
proof fn lemma_settles_end(
    record: RecordContent,
    events: Seq<Event>,
    commit: CommitRef,
    upto: int,
)
    requires
        0 <= upto <= events.len(),
        !after_settles(record, events.take(upto), commit).1,
    ensures
        after_settles(record, events, commit) == after_settles(record, events.take(upto), commit),
    decreases events.len(),
{
    if upto == events.len() {
        assert(events.take(upto) =~= events);
    } else {
        assert(events.drop_last().take(upto) =~= events.take(upto));
        lemma_settles_end(record, events.drop_last(), commit, upto);
    }
}

fn sort_sides(record: &mut TradeRecord)
    ensures
        final(record)@ == (RecordContent {
            sides: in_order(old(record)@.sides, side_lt()),
            ..old(record)@
        }),
{
    let ghost items = side_contents(record.sides@);
    let mut sorted: Vec<TradeSide> = Vec::new();
    let ghost mut done: int = 0;
    assert(items.take(0) =~= Seq::empty());
    assert(side_contents(sorted@) =~= in_order(items.take(0), side_lt()));
    assert(items.skip(0) =~= items);
    while record.sides.len() > 0
        invariant
            0 <= done <= items.len(),
            side_contents(record.sides@) == items.skip(done),
            side_contents(sorted@) == in_order(items.take(done), side_lt()),
            record.trade_id == old(record).trade_id,
            record.status == old(record).status,
            record.value_legs == old(record).value_legs,
            record.events == old(record).events,
        decreases record.sides@.len(),
    {
        let ghost before = side_contents(sorted@);
        let ghost left = side_contents(record.sides@);
        assert(left.len() == record.sides@.len());
        assert(left[0] == items.skip(done)[0]);
        let item = record.sides.remove(0);
        let mut at: usize = sorted.len();
        while at > 0 && text_less(item.tenant.as_str(), sorted[at - 1].tenant.as_str())
            invariant
                at <= sorted@.len(),
                before == side_contents(sorted@),
                forall|k: int| at <= k < sorted@.len() ==> side_lt()(item@, #[trigger] before[k]),
            decreases at,
        {
            assert(before[at - 1] == sorted@[at - 1]@);
            at = at - 1;
        }
        proof {
            if at > 0 {
                assert(before[at - 1] == sorted@[at - 1]@);
            }
            lemma_placed_at(before, item@, side_lt(), at as int);
        }
        sorted.insert(at, item);
        proof {
            assert(side_contents(sorted@) =~= before.insert(at as int, item@));
            assert(items[done] == item@);
            lemma_take_next(items, done);
            assert(side_contents(record.sides@) =~= items.skip(done + 1)) by {
                assert(side_contents(record.sides@) =~= left.skip(1));
            }
            done = done + 1;
        }
    }
    assert(items.take(done) =~= items);
    record.sides = sorted;
    assert(record@ =~= (RecordContent {
        sides: in_order(old(record)@.sides, side_lt()),
        ..old(record)@
    }));
}

fn trade_members<'a>(events: &'a Vec<Event>, trade_id: &str) -> (r: Vec<&'a Event>)
    requires
        trades_named(events@),
    ensures
        pointed(r@) == trade_events(events@, trade_id@),
{
    let mut found: Vec<&'a Event> = Vec::new();
    let mut i: usize = 0;
    assert(events@.take(0) =~= Seq::empty());
    assert(pointed(found@) =~= trade_events(events@.take(0), trade_id@));
    while i < events.len()
        invariant
            i <= events@.len(),
            trades_named(events@),
            pointed(found@) == trade_events(events@.take(i as int), trade_id@),
        decreases events@.len() - i,
    {
        proof {
            lemma_take_next(events@, i as int);
            assert(!nameless(events@[i as int]));
        }
        if let Ok(Some(id)) = trade_id_of(&events[i]) {
            if same_text(id.as_str(), trade_id) {
                let ghost before = pointed(found@);
                found.push(&events[i]);
                assert(pointed(found@) =~= before.push(events@[i as int]));
            }
        }
        i = i + 1;
    }
    assert(events@.take(i as int) =~= events@);
    found
}

/// The trades that a batch's events name, in order.
fn event_trades(events: &Vec<Event>) -> (r: Result<Vec<String>, IndexError>)
    ensures
        match r {
            Ok(ids) => trades_named(events@) && increasing(texts(ids@)) && forall|id: Seq<char>|
                #[trigger] texts(ids@).contains(id) <==> concerned(events@, id),
            Err(_) => exists|at: int| #[trigger]
                first_nameless(events@, at) && trade_missing(r, nameless_complaint(events@[at])),
        },
{
    let mut ids: Vec<String> = Vec::new();
    let mut i: usize = 0;
    while i < events.len()
        invariant
            i <= events@.len(),
            forall|k: int| 0 <= k < i ==> !nameless(#[trigger] events@[k]),
            increasing(texts(ids@)),
            forall|id: Seq<char>| #[trigger]
                texts(ids@).contains(id) <==> exists|k: int|
                    0 <= k < i && trade_named(#[trigger] events@[k]) == Some(id),
        decreases events@.len() - i,
    {
        let ghost before = texts(ids@);
        match trade_id_of(&events[i]) {
            Ok(Some(name)) => {
                insert_sorted(&mut ids, name.as_str());
                proof {
                    assert forall|id: Seq<char>| #[trigger]
                        texts(ids@).contains(id) <==> exists|k: int|
                            0 <= k < i + 1 && trade_named(#[trigger] events@[k]) == Some(id) by {
                        assert(texts(ids@).contains(id) <==> before.contains(id) || id == name@);
                        if id == name@ {
                            assert(trade_named(events@[i as int]) == Some(id));
                        }
                    }
                }
            },
            Ok(None) => {
                assert(trade_named(events@[i as int]) is None);
            },
            Err(failure) => {
                assert(first_nameless(events@, i as int));
                return Err(failure);
            },
        }
        i = i + 1;
    }
    Ok(ids)
}

/// A trade that a batch is concerned with has events in it.
proof fn lemma_concerned(events: Seq<Event>, trade_id: Seq<char>)
    ensures
        concerned(events, trade_id) <==> trade_events(events, trade_id).len() > 0,
    decreases events.len(),
{
    if events.len() > 0 {
        lemma_concerned(events.drop_last(), trade_id);
        if concerned(events.drop_last(), trade_id) {
            let k = choose|k: int|
                0 <= k < events.len() - 1 && trade_named(#[trigger] events.drop_last()[k]) == Some(
                    trade_id,
                );
            assert(trade_named(events[k]) == Some(trade_id));
        }
        if concerned(events, trade_id) {
            let k = choose|k: int|
                0 <= k < events.len() && trade_named(#[trigger] events[k]) == Some(trade_id);
            if k < events.len() - 1 {
                assert(trade_named(events.drop_last()[k]) == Some(trade_id));
            }
        }
        if trade_named(events.last()) == Some(trade_id) {
            assert(trade_named(events[events.len() - 1]) == Some(trade_id));
        }
    }
}

/// Replacing one record of an index replaces its content.
proof fn lemma_record_put(
    state: Table<TradeRecord>,
    after: Table<TradeRecord>,
    id: Seq<char>,
    record: TradeRecord,
)
    requires
        after@ == state@.remove(id).insert(id, record),
    ensures
        records(after) == records(state).insert(id, record@),
{
    assert(records(after) =~= records(state).insert(id, record@));
}

/// Takes the record of a trade out of an index, or begins one.
fn take_record(state: &mut Table<TradeRecord>, trade_id: &str) -> (r: TradeRecord)
    ensures
        final(state)@ == old(state)@.remove(trade_id@),
        r@ == record_of(records(*old(state)), trade_id@),
{
    match state.remove(trade_id) {
        Some(record) => record,
        None => TradeRecord::new(trade_id.to_owned()),
    }
}

/// Applies the events of one trade to an index.
fn apply_trade(
    state: &mut Table<TradeRecord>,
    events: &Vec<Event>,
    trade_id: &str,
    commit: &CommitRef,
) -> (r: Result<(), IndexError>)
    requires
        trades_named(events@),
    ensures
        ({
            let (record, sound) = advance_of(
                records(*old(state)),
                events@,
                *commit,
                trade_id@,
            );
            &&& records(*final(state)) == records(*old(state)).insert(trade_id@, record)
            &&& if sound {
                r is Ok
            } else {
                value_refused(r, owner_complaint())
            }
        }),
{
    let list = trade_members(events, trade_id);
    let mut record = take_record(state, trade_id);
    let outcome = apply_trade_events(&mut record, &list, commit);
    if outcome.is_ok() {
        sort_sides(&mut record);
    }
    state.insert(trade_id.to_owned(), record);
    proof {
        assert(state@ == old(state)@.remove(trade_id@).insert(trade_id@, record));
        lemma_record_put(*old(state), *state, trade_id@, record);
    }
    outcome
}

/// An index after the events of the listed trades.
spec fn after_listed(
    state: Map<Seq<char>, RecordContent>,
    events: Seq<Event>,
    commit: CommitRef,
    ids: Seq<Seq<char>>,
) -> Map<Seq<char>, RecordContent> {
    Map::new(
        |id: Seq<char>| state.contains_key(id) || ids.contains(id),
        |id: Seq<char>|
            if ids.contains(id) {
                advance_of(state, events, commit, id).0
            } else {
                state[id]
            },
    )
}

/// Applies the events of a batch to an index, trade by trade.
fn apply_trades(
    state: &mut Table<TradeRecord>,
    events: &Vec<Event>,
    ids: &Vec<String>,
    commit: &CommitRef,
) -> (r: Result<(), IndexError>)
    requires
        trades_named(events@),
        increasing(texts(ids@)),
        forall|id: Seq<char>| #[trigger] texts(ids@).contains(id) <==> concerned(events@, id),
    ensures
        ({
            let before = records(*old(state));
            let after = records(*final(state));
            if trades_sound(before, events@, *commit) {
                r is Ok && after == after_trades(before, events@, *commit)
            } else {
                value_refused(r, owner_complaint()) && exists|id: Seq<char>| #[trigger]
                    least_stuck(before, events@, *commit, id) && after == after_some_trades(
                        before,
                        events@,
                        *commit,
                        id,
                    )
            }
        }),
{
    let ghost before = records(*state);
    let ghost order = texts(ids@);
    let mut i: usize = 0;
    assert(order.take(0) =~= Seq::empty());
    assert(records(*state) =~= after_listed(before, events@, *commit, order.take(0)));
    while i < ids.len()
        invariant
            i <= ids@.len(),
            order == texts(ids@),
            trades_named(events@),
            increasing(order),
            before == records(*old(state)),
            forall|id: Seq<char>| #[trigger] order.contains(id) <==> concerned(events@, id),
            forall|k: int|
                0 <= k < i ==> !stuck(before, events@, *commit, #[trigger] order[k]),
            records(*state) == after_listed(before, events@, *commit, order.take(i as int)),
        decreases ids@.len() - i,
    {
        let ghost id = order[i as int];
        let ghost earlier = records(*state);
        proof {
            assert(id == ids@[i as int]@);
            assert(order.contains(id));
            assert(!order.take(i as int).contains(id)) by {
                if order.take(i as int).contains(id) {
                    let k = choose|k: int|
                        0 <= k < order.take(i as int).len() && order.take(i as int)[k] == id;
                    lemma_text_lt_irreflexive(id);
                    assert(text_lt(order[k], order[i as int]));
                }
            }
            assert(record_of(earlier, id) == record_of(before, id));
            assert(order.take(i + 1) =~= order.take(i as int).push(id));
            lemma_push_contains(order.take(i as int), id);
        }
        let outcome = apply_trade(state, events, ids[i].as_str(), commit);
        proof {
            assert(records(*state) =~= after_listed(
                before,
                events@,
                *commit,
                order.take(i + 1),
            ));
        }
        if outcome.is_err() {
            proof {
                lemma_stuck_at(before, events@, *commit, order, i as int);
                let upto = order.take(i + 1);
                let listed = after_listed(before, events@, *commit, upto);
                let wanted = after_some_trades(before, events@, *commit, id);
                assert forall|other: Seq<char>| #[trigger]
                    upto.contains(other) == (concerned(events@, other) && !text_lt(id, other)) by {
                    lemma_listed_upto(order, i as int, other);
                }
                assert forall|other: Seq<char>| #[trigger]
                    listed.contains_key(other) == wanted.contains_key(other) by {
                    assert(upto.contains(other) == (concerned(events@, other) && !text_lt(
                        id,
                        other,
                    )));
                }
                assert forall|other: Seq<char>| #[trigger]
                    listed.contains_key(other) implies listed[other] == wanted[other] by {
                    assert(upto.contains(other) == (concerned(events@, other) && !text_lt(
                        id,
                        other,
                    )));
                }
                assert(listed =~= wanted);
            }
            return outcome;
        }
        i = i + 1;
    }
    proof {
        assert(order.take(i as int) =~= order);
        assert(records(*state) =~= after_trades(before, events@, *commit));
        assert forall|id: Seq<char>| !#[trigger] stuck(before, events@, *commit, id) by {
            if concerned(events@, id) {
                assert(order.contains(id));
                let k = choose|k: int| 0 <= k < order.len() && order[k] == id;
                assert(!stuck(before, events@, *commit, order[k]));
            }
        }
    }
    Ok(())
}

/// The texts up to a place of an increasing list are those not beyond it.
proof fn lemma_listed_upto(order: Seq<Seq<char>>, at: int, text: Seq<char>)
    requires
        increasing(order),
        0 <= at < order.len(),
    ensures
        order.take(at + 1).contains(text) == (order.contains(text) && !text_lt(order[at], text)),
{
    let upto = order.take(at + 1);
    if upto.contains(text) {
        let k = choose|k: int| 0 <= k < upto.len() && upto[k] == text;
        assert(order[k] == text);
        assert(order.contains(text));
        if k < at {
            lemma_text_lt_asymmetric(order[k], order[at]);
        } else {
            lemma_text_lt_irreflexive(text);
        }
    }
    if order.contains(text) && !text_lt(order[at], text) {
        let k = choose|k: int| 0 <= k < order.len() && order[k] == text;
        assert(k <= at);
        assert(upto[k] == text);
    }
}

/// The first stuck trade of the ordered list is the least one.
proof fn lemma_stuck_at(
    state: Map<Seq<char>, RecordContent>,
    events: Seq<Event>,
    commit: CommitRef,
    order: Seq<Seq<char>>,
    at: int,
)
    requires
        increasing(order),
        forall|id: Seq<char>| #[trigger] order.contains(id) <==> concerned(events, id),
        0 <= at < order.len(),
        stuck(state, events, commit, order[at]),
        forall|k: int| 0 <= k < at ==> !stuck(state, events, commit, #[trigger] order[k]),
    ensures
        least_stuck(state, events, commit, order[at]),
{
    assert forall|other: Seq<char>| #[trigger]
        stuck(state, events, commit, other) implies !text_lt(other, order[at]) by {
        assert(order.contains(other));
        let k = choose|k: int| 0 <= k < order.len() && order[k] == other;
        if k < at {
            assert(!stuck(state, events, commit, order[k]));
        } else if k > at {
            lemma_text_lt_asymmetric(order[at], order[k]);
        } else {
            lemma_text_lt_irreflexive(other);
        }
    }
}

/// Adds a value leg to the record of its trade.
fn attach_leg(state: &mut Table<TradeRecord>, trade_id: String, leg: TradeValueLeg)
    ensures
        records(*final(state)) == records(*old(state)).insert(
            trade_id@,
            with_leg(record_of(records(*old(state)), trade_id@), leg@),
        ),
{
    let mut record = take_record(state, trade_id.as_str());
    let ghost before = record@;
    let ghost refs = leg_refs(leg@);
    let mut i: usize = 0;
    assert(before.events + refs.take(0) =~= before.events);
    while i < leg.pair_event_ids.len()
        invariant
            i <= leg.pair_event_ids@.len(),
            refs == leg_refs(leg@),
            ref_contents(record.events@) == before.events + refs.take(i as int),
            record.trade_id@ == before.trade_id,
            record.status == before.status,
            side_contents(record.sides@) == before.sides,
            leg_contents(record.value_legs@) == before.legs,
        decreases leg.pair_event_ids@.len() - i,
    {
        let reference = TradeEventRef {
            event_id: leg.pair_event_ids[i].clone(),
            tenant_id: leg.tenant.clone(),
            operation: Operation("balance.transfer".to_owned()),
        };
        let ghost noted_so_far = ref_contents(record.events@);
        record.events.push(reference);
        proof {
            assert(refs[i as int] == reference@);
            assert(ref_contents(record.events@) =~= noted_so_far.push(reference@));
            assert(before.events + refs.take(i + 1) =~= (before.events + refs.take(
                i as int,
            )).push(refs[i as int]));
        }
        i = i + 1;
    }
    let ghost content = leg@;
    assert(refs.take(i as int) =~= refs);
    record.value_legs.push(leg);
    proof {
        assert(leg_contents(record.value_legs@) =~= before.legs.push(content));
        assert(record@ =~= with_leg(before, content));
    }
    state.insert(trade_id, record);
    proof {
        assert(state@ == old(state)@.remove(trade_id@).insert(trade_id@, record));
        lemma_record_put(*old(state), *state, trade_id@, record);
    }
}

/// Adds value legs to the records of their trades.
fn attach_legs(state: &mut Table<TradeRecord>, list: Vec<(String, TradeValueLeg)>)
    ensures
        records(*final(state)) == after_legs(records(*old(state)), attributed(list@)),
{
    let ghost legs = attributed(list@);
    let ghost before = records(*state);
    let mut rest = list;
    let ghost mut done: int = 0;
    assert(legs.skip(0) =~= legs);
    assert(legs.take(0) =~= Seq::empty());
    assert(records(*state) =~= after_legs(before, legs.take(0)));
    while rest.len() > 0
        invariant
            0 <= done <= legs.len(),
            attributed(rest@) == legs.skip(done),
            records(*state) == after_legs(before, legs.take(done)),
        decreases rest@.len(),
    {
        let ghost left = attributed(rest@);
        let ghost earlier = records(*state);
        assert(left.len() == rest@.len());
        assert(left[0] == legs.skip(done)[0]);
        let (trade_id, leg) = rest.remove(0);
        attach_leg(state, trade_id, leg);
        proof {
            assert(legs[done] == (trade_id@, leg@));
            lemma_next_leg(before, legs, done);
            assert(attributed(rest@) =~= left.skip(1));
            assert(attributed(rest@) =~= legs.skip(done + 1));
            done = done + 1;
        }
    }
    assert(legs.take(done) =~= legs);
}

/// One more value leg changes the record of its trade only.
proof fn lemma_next_leg(
    state: Map<Seq<char>, RecordContent>,
    legs: Seq<(Seq<char>, LegContent)>,
    at: int,
)
    requires
        0 <= at < legs.len(),
    ensures
        after_legs(state, legs.take(at + 1)) == after_legs(state, legs.take(at)).insert(
            legs[at].0,
            with_leg(record_of(after_legs(state, legs.take(at)), legs[at].0), legs[at].1),
        ),
{
    let (id, leg) = legs[at];
    let earlier = after_legs(state, legs.take(at));
    lemma_take_next(legs, at);
    assert forall|other: Seq<char>|
        has_legs(legs.take(at + 1), other) == (has_legs(legs.take(at), other) || other == id) by {
        if has_legs(legs.take(at), other) {
            let k = choose|k: int|
                0 <= k < legs.take(at).len() && (#[trigger] legs.take(at)[k]).0 == other;
            assert(legs.take(at + 1)[k].0 == other);
        }
        assert(legs.take(at + 1)[at].0 == id);
        if has_legs(legs.take(at + 1), other) {
            let k = choose|k: int|
                0 <= k < legs.take(at + 1).len() && (#[trigger] legs.take(at + 1)[k]).0 == other;
            if k < at {
                assert(legs.take(at)[k].0 == other);
            }
        }
    }
    lemma_without_legs(record_of(state, id), legs.take(at), id);
    assert(record_of(earlier, id) == with_legs(record_of(state, id), legs.take(at), id));
    assert(after_legs(state, legs.take(at + 1)) =~= earlier.insert(
        id,
        with_leg(record_of(earlier, id), leg),
    ));
}

/// Legs of other trades leave a record alone.
pub proof fn lemma_without_legs(
    record: RecordContent,
    legs: Seq<(Seq<char>, LegContent)>,
    trade_id: Seq<char>,
)
    ensures
        !has_legs(legs, trade_id) ==> with_legs(record, legs, trade_id) == record,
    decreases legs.len(),
{
    if legs.len() > 0 && !has_legs(legs, trade_id) {
        assert(legs[legs.len() - 1].0 != trade_id);
        if has_legs(legs.drop_last(), trade_id) {
            let k = choose|k: int|
                0 <= k < legs.drop_last().len() && (#[trigger] legs.drop_last()[k]).0 == trade_id;
            assert(legs[k].0 == trade_id);
        }
        lemma_without_legs(record, legs.drop_last(), trade_id);
    }
}

/// Applies a batch to the trade index.
pub fn apply(state: &mut Table<TradeRecord>, batch: &IngestBatch) -> (r: Result<(), IndexError>)
    ensures
        ingested(r, records(*old(state)), records(*final(state)), *batch),
{
    let commit = match commit_ref_from_signed(&batch.commit) {
        Ok(commit) => commit,
        Err(failure) => return Err(failure),
    };
    let pairs = match recover_value_pairs(&batch.events) {
        Ok(pairs) => pairs,
        Err(failure) => return Err(failure),
    };
    let ids = match event_trades(&batch.events) {
        Ok(ids) => ids,
        Err(failure) => return Err(failure),
    };
    match apply_trades(state, &batch.events, &ids, &commit) {
        Ok(()) => {},
        Err(failure) => return Err(failure),
    }
    let legs = match match_value_legs(&batch.settle_intents, pairs, &commit) {
        Ok(legs) => legs,
        Err(failure) => return Err(failure),
    };
    attach_legs(state, legs);
    Ok(())
}

// ---------------------------------------------------------------------------
// Touched trades.
// ---------------------------------------------------------------------------
/// Whether an intent declares a value leg of a trade.
pub open spec fn declares_for(intent: Intent, trade_id: Seq<char>) -> bool {
    value_leg_declared(intent) && input_text(intent, "trade_id"@) == Some(trade_id)
}

/// Whether a batch touches a trade: by an event or by a declaration.
pub open spec fn touches(batch: IngestBatch, trade_id: Seq<char>) -> bool {
    concerned(batch.events@, trade_id) || exists|i: int|
        0 <= i < batch.settle_intents@.len() && declares_for(
            #[trigger] batch.settle_intents@[i],
            trade_id,
        )
}

/// The trades that a batch touches, each once and in text order.
pub fn batch_trade_ids(batch: &IngestBatch) -> (r: Vec<String>)
    ensures
        increasing(texts(r@)),
        forall|id: Seq<char>| #[trigger] texts(r@).contains(id) <==> touches(*batch, id),
{
    let mut ids: Vec<String> = Vec::new();
    let mut i: usize = 0;
    while i < batch.events.len()
        invariant
            i <= batch.events@.len(),
            increasing(texts(ids@)),
            forall|id: Seq<char>| #[trigger]
                texts(ids@).contains(id) <==> exists|k: int|
                    0 <= k < i && trade_named(#[trigger] batch.events@[k]) == Some(id),
        decreases batch.events@.len() - i,
    {
        let ghost before = texts(ids@);
        match trade_id_of(&batch.events[i]) {
            Ok(Some(name)) => {
                insert_sorted(&mut ids, name.as_str());
                proof {
                    assert forall|id: Seq<char>| #[trigger]
                        texts(ids@).contains(id) <==> exists|k: int|
                            0 <= k < i + 1 && trade_named(#[trigger] batch.events@[k]) == Some(
                                id,
                            ) by {
                        assert(texts(ids@).contains(id) <==> before.contains(id) || id == name@);
                        if id == name@ {
                            assert(trade_named(batch.events@[i as int]) == Some(id));
                        }
                    }
                }
            },
            _ => {
                assert(trade_named(batch.events@[i as int]) is None);
            },
        }
        i = i + 1;
    }
    let mut j: usize = 0;
    while j < batch.settle_intents.len()
        invariant
            j <= batch.settle_intents@.len(),
            increasing(texts(ids@)),
            forall|id: Seq<char>| #[trigger]
                texts(ids@).contains(id) <==> concerned(batch.events@, id) || exists|k: int|
                    0 <= k < j && declares_for(#[trigger] batch.settle_intents@[k], id),
        decreases batch.settle_intents@.len() - j,
    {
        let ghost before = texts(ids@);
        let ghost intent = batch.settle_intents@[j as int];
        if batch.settle_intents[j].declares_value_leg() {
            if let Ok(name) = intent_str(&batch.settle_intents[j], "trade_id") {
                insert_sorted(&mut ids, name.as_str());
                assert(declares_for(intent, name@));
            }
        }
        proof {
            assert forall|id: Seq<char>| #[trigger]
                texts(ids@).contains(id) <==> concerned(batch.events@, id) || exists|k: int|
                    0 <= k < j + 1 && declares_for(#[trigger] batch.settle_intents@[k], id) by {
                assert(texts(ids@).contains(id) <==> before.contains(id) || declares_for(
                    intent,
                    id,
                ));
                if declares_for(intent, id) {
                    assert(declares_for(batch.settle_intents@[j as int], id));
                }
            }
        }
        j = j + 1;
    }
    ids
}

// ---------------------------------------------------------------------------
// Replay.
// ---------------------------------------------------------------------------
/// Whether a batch goes through on an index.
pub open spec fn sound_for(state: Map<Seq<char>, RecordContent>, batch: IngestBatch) -> bool {
    commit_complaint(batch.commit) is None && pairs_sound(batch.events@) && trades_named(
        batch.events@,
    ) && trades_sound(state, batch.events@, commit_kept(batch.commit)) && declarations_sound(
        batch.settle_intents@,
    )
}

/// An index after batches, applied in order.
pub open spec fn replayed(
    state: Map<Seq<char>, RecordContent>,
    batches: Seq<IngestBatch>,
) -> Map<Seq<char>, RecordContent>
    decreases batches.len(),
{
    if batches.len() == 0 {
        state
    } else {
        after_batch(replayed(state, batches.drop_last()), batches.last())
    }
}

/// Whether every batch goes through on the index that the ones before leave.
pub open spec fn stream_sound(
    state: Map<Seq<char>, RecordContent>,
    batches: Seq<IngestBatch>,
) -> bool {
    forall|k: int|
        0 <= k < batches.len() ==> sound_for(
            replayed(state, #[trigger] batches.take(k)),
            batches[k],
        )
}

/// Whether the batch at a position is the first that does not go through,
/// with the given result.
pub open spec fn first_refused(
    r: Result<(), IndexError>,
    state: Map<Seq<char>, RecordContent>,
    batches: Seq<IngestBatch>,
    at: int,
) -> bool {
    0 <= at < batches.len() && stream_sound(state, batches.take(at)) && exists|after: Map<
        Seq<char>,
        RecordContent,
    >| #[trigger] ingested(r, replayed(state, batches.take(at)), after, batches[at])
}

/// Builds the index of a stream of batches from scratch.
pub fn rebuild(batches: &Vec<IngestBatch>) -> (r: Result<Table<TradeRecord>, IndexError>)
    ensures
        match r {
            Ok(state) => stream_sound(Map::empty(), batches@) && records(state) == replayed(
                Map::empty(),
                batches@,
            ),
            Err(failure) => exists|at: int| #[trigger]
                first_refused(Err(failure), Map::empty(), batches@, at),
        },
{
    let ghost empty = Map::<Seq<char>, RecordContent>::empty();
    let mut state: Table<TradeRecord> = Table::new();
    let mut i: usize = 0;
    assert(records(state) =~= empty);
    assert(batches@.take(0) =~= Seq::empty());
    while i < batches.len()
        invariant
            i <= batches@.len(),
            empty == Map::<Seq<char>, RecordContent>::empty(),
            records(state) == replayed(empty, batches@.take(i as int)),
            stream_sound(empty, batches@.take(i as int)),
        decreases batches@.len() - i,
    {
        let ghost upto = batches@.take(i as int);
        let ghost before = records(state);
        match apply(&mut state, &batches[i]) {
            Ok(()) => {
                proof {
                    let next = batches@.take(i + 1);
                    lemma_take_next(batches@, i as int);
                    assert(sound_for(before, batches@[i as int]));
                    assert forall|k: int| 0 <= k < next.len() implies sound_for(
                        replayed(empty, #[trigger] next.take(k)),
                        next[k],
                    ) by {
                        assert(next.take(k) =~= batches@.take(k));
                        if k < i {
                            assert(upto.take(k) =~= batches@.take(k));
                        } else {
                            assert(next.take(k) =~= upto);
                        }
                    }
                }
            },
            Err(failure) => {
                assert(first_refused(Err(failure), empty, batches@, i as int));
                return Err(failure);
            },
        }
        i = i + 1;
    }
    assert(batches@.take(i as int) =~= batches@);
    Ok(state)
}

} // verus!
