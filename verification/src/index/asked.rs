//! What the read side asks for and tells.
use vstd::prelude::*;

use crate::domain::commit::CommitRef;
use crate::domain::event::Event;
use crate::domain::ids::{CommitId, TenantId};
use crate::domain::intent::Intent;
use crate::index::builder::{concerned, declares_for, touches, trade_named, IngestBatch};
use crate::index::history::{
    commit_contents, commits_of, event_at, listed, recounts, with_commit, with_leg_commits,
    with_side_commits, EventsById,
};
use crate::index::rebuild::{
    chunk_end, counted, latest, lists_latest, works_on, RebuildError, RebuildStep, StreamEvent,
};
use crate::index::referenced::{is_lock, is_release, is_settlement, lemma_named};
use crate::index::service::{first_of_tenant, requests_for, side_requests, RequestContent};
use crate::index::settlements::declares;
use crate::index::trade::{LegContent, RecordContent, SideContent, TradeHistory};

verus! {

// ---------------------------------------------------------------------------
// Chunks of a rebuild.
// ---------------------------------------------------------------------------
/// A chunk ends after as many events as it may hold, or with the stream; with
/// events left and room for one it gets further. The projections written are
/// added up.
pub proof fn law_chunks_get_further(total: nat, start: nat, size: nat, a: u64, b: u64)
    requires
        start <= total,
    ensures
        start <= chunk_end(total, start, size) <= total,
        chunk_end(total, start, size) - start <= size,
        chunk_end(total, start, size) < total ==> chunk_end(total, start, size) == start + size,
        start < total && size > 0 ==> start < chunk_end(total, start, size),
        a + b <= u64::MAX ==> counted(a, b) == a + b,
        a + b > u64::MAX ==> counted(a, b) == u64::MAX,
{
}

/// A resumed rebuild is done exactly when no event is left, with the number of
/// projections written so far. Otherwise it starts to write, from the first
/// projection on, what the events of the next chunk left behind.
pub proof fn law_rebuilds_resume_where_they_stopped(
    r: RebuildStep,
    items: Seq<StreamEvent>,
    chunk_size: nat,
    offset: nat,
    written: u64,
)
    requires
        works_on(r, items, chunk_size, offset, written),
        chunk_size > 0,
    ensures
        r is Done <==> offset >= items.len(),
        r is Done ==> r->Done_0 == Ok::<u64, RebuildError>(written),
        r is WriteProjection <==> offset < items.len(),
        r is WriteProjection ==> {
            let next = r->WriteProjection_0;
            &&& next.at() == 0
            &&& next.written() == written
            &&& next.items() == items
            &&& next.chunk_size() == chunk_size
            &&& offset < next.end() <= items.len()
            &&& next.end() <= offset + chunk_size
            &&& next.end() == items.len() || next.end() == offset + chunk_size
            &&& lists_latest(
                next.list(),
                latest(items.subrange(offset as int, next.end() as int)),
            )
        },
{
}

// ---------------------------------------------------------------------------
// Which trades a batch touches.
// ---------------------------------------------------------------------------
/// A batch touches a trade exactly when one of its events locks, settles or
/// releases an asset of the trade, or one of its settle intents declares a
/// value leg for the trade.
pub proof fn law_batches_touch_what_they_name(batch: IngestBatch, trade_id: Seq<char>)
    ensures
        touches(batch, trade_id) <==> {
            ||| exists|i: int|
                0 <= i < batch.events@.len() && names(#[trigger] batch.events@[i], trade_id)
            ||| exists|i: int|
                0 <= i < batch.settle_intents@.len() && declares_something(
                    #[trigger] batch.settle_intents@[i],
                    trade_id,
                )
        },
{
    lemma_named(batch.events@, trade_id);
    if concerned(batch.events@, trade_id) {
        let i = choose|i: int|
            0 <= i < batch.events@.len() && trade_named(#[trigger] batch.events@[i]) == Some(
                trade_id,
            );
        assert(names(batch.events@[i], trade_id));
    }
    if exists|i: int| 0 <= i < batch.events@.len() && names(#[trigger] batch.events@[i], trade_id) {
        let i = choose|i: int|
            0 <= i < batch.events@.len() && names(#[trigger] batch.events@[i], trade_id);
        assert(trade_named(batch.events@[i]) == Some(trade_id));
    }
    assert forall|i: int| 0 <= i < batch.settle_intents@.len() implies declares_for(
        #[trigger] batch.settle_intents@[i],
        trade_id,
    ) == declares_something(batch.settle_intents@[i], trade_id) by {}
}

/// Whether an event locks, settles or releases an asset of a trade.
pub open spec fn names(event: Event, trade_id: Seq<char>) -> bool {
    is_lock(event, trade_id) || is_settlement(event, trade_id) || is_release(event, trade_id)
}

/// Whether an intent declares something of a value leg, for a trade.
pub open spec fn declares_something(
    intent: Intent,
    trade_id: Seq<char>,
) -> bool {
    &&& declares(intent, "trade_id"@, trade_id)
    &&& intent.inputs@.contains_key("value_resource"@) || intent.inputs@.contains_key(
        "value_amount"@,
    ) || intent.inputs@.contains_key("value_to_subject"@)
}

// ---------------------------------------------------------------------------
// History.
// ---------------------------------------------------------------------------
/// A history tells a record's events in the record's order, each under the
/// tenant of its reference and as the store holds it.
pub proof fn law_histories_tell_the_recorded_events(
    history: TradeHistory,
    record: RecordContent,
    store: EventsById,
    i: int,
)
    requires
        recounts(history, record, store),
        0 <= i < record.events.len(),
    ensures
        history.trade_id@ == record.trade_id,
        history.status == record.status,
        history.events@.len() == record.events.len(),
        ({
            let told = history.events@[i];
            let kept = event_at(store, record.events[i].tenant_id, record.events[i].event_id)->0;
            &&& told.tenant_id.0@ == record.events[i].tenant_id
            &&& told.event.event_id.0@ == kept.event_id.0@
            &&& told.event.tenant_id.0@ == kept.tenant_id.0@
            &&& told.event.intent_id.0@ == kept.intent_id.0@
            &&& told.event.operation.0@ == kept.operation.0@
            &&& told.event.resource_id.0@ == kept.resource_id.0@
            &&& told.event.actor.0@ == kept.actor.0@
            &&& told.event.executor.0@ == kept.executor.0@
            &&& told.event.schema@ == kept.schema@
            &&& told.event.created_at == kept.created_at
            &&& told.event.authority == kept.authority
            &&& told.event.before.version == kept.before.version
            &&& told.event.before.state_hash.bytes@ == kept.before.state_hash.bytes@
            &&& told.event.before.state.payload@ == kept.before.state.payload@
            &&& told.event.before.state.state_type == kept.before.state.state_type
            &&& told.event.after.version == kept.after.version
            &&& told.event.after.state_hash.bytes@ == kept.after.state_hash.bytes@
            &&& told.event.after.state.payload@ == kept.after.state.payload@
            &&& told.event.after.state.state_type == kept.after.state.state_type
        }),
{
    assert(history.events@[i].tenant_id.0@ == record.events[i].tenant_id);
}

/// Whether a commit of a tenant is in a list.
pub open spec fn told(
    commits: Seq<(Seq<char>, CommitRef)>,
    tenant: Seq<char>,
    commit_id: Seq<char>,
) -> bool {
    exists|k: int|
        0 <= k < commits.len() && (#[trigger] commits[k]).0 == tenant && commits[k].1.commit_id.0@
            == commit_id
}

/// Whether a commit is that of a side or of a value leg of a record.
pub open spec fn belongs(record: RecordContent, tenant: Seq<char>, commit: CommitRef) -> bool {
    ||| exists|k: int|
        0 <= k < record.sides.len() && (#[trigger] record.sides[k]).tenant == tenant
            && record.sides[k].commit == commit
    ||| exists|k: int|
        0 <= k < record.legs.len() && (#[trigger] record.legs[k]).tenant == tenant
            && record.legs[k].commit == commit
}

/// A history tells the commit of every side and of every value leg, under its
/// tenant, and no other commit.
pub proof fn law_histories_tell_every_commit(
    history: TradeHistory,
    record: RecordContent,
    store: EventsById,
)
    requires
        recounts(history, record, store),
    ensures
        ({
            let commits = commit_contents(history.commits@);
            &&& forall|k: int|
                0 <= k < record.sides.len() ==> told(
                    commits,
                    (#[trigger] record.sides[k]).tenant,
                    record.sides[k].commit.commit_id.0@,
                )
            &&& forall|k: int|
                0 <= k < record.legs.len() ==> told(
                    commits,
                    (#[trigger] record.legs[k]).tenant,
                    record.legs[k].commit.commit_id.0@,
                )
            &&& forall|k: int|
                0 <= k < commits.len() ==> belongs(
                    record,
                    (#[trigger] commits[k]).0,
                    commits[k].1,
                )
        }),
{
    let commits = commits_of(record);
    let first = with_side_commits(record.sides);
    lemma_side_commits_told(record.sides);
    lemma_leg_commits_told(first, record.legs);
    assert forall|k: int| 0 <= k < record.sides.len() implies told(
        commits,
        (#[trigger] record.sides[k]).tenant,
        record.sides[k].commit.commit_id.0@,
    ) by {
        let side = record.sides[k];
        assert(told(first, side.tenant, side.commit.commit_id.0@));
        let j = choose|j: int|
            0 <= j < first.len() && (#[trigger] first[j]).0 == side.tenant
                && first[j].1.commit_id.0@ == side.commit.commit_id.0@;
        assert(commits[j] == first[j]);
    }
    assert forall|k: int| 0 <= k < commits.len() implies belongs(
        record,
        (#[trigger] commits[k]).0,
        commits[k].1,
    ) by {
        if k < first.len() {
            assert(commits[k] == first[k]);
        }
    }
}

proof fn lemma_commit_told(
    commits: Seq<(Seq<char>, CommitRef)>,
    tenant: Seq<char>,
    commit: CommitRef,
)
    ensures
        ({
            let next = with_commit(commits, tenant, commit);
            &&& commits.len() <= next.len() <= commits.len() + 1
            &&& forall|k: int| 0 <= k < commits.len() ==> #[trigger] next[k] == commits[k]
            &&& told(next, tenant, commit.commit_id.0@)
            &&& next.len() > commits.len() ==> next[commits.len() as int] == (tenant, commit)
        }),
{
    let next = with_commit(commits, tenant, commit);
    if listed(commits, tenant, commit) {
        let i = choose|i: int|
            0 <= i < commits.len() && (#[trigger] commits[i]).0 == tenant
                && commits[i].1.commit_id.0@ == commit.commit_id.0@;
        assert(next[i].0 == tenant);
    } else {
        assert(next[commits.len() as int].0 == tenant);
    }
}

proof fn lemma_side_commits_told(sides: Seq<SideContent>)
    ensures
        ({
            let commits = with_side_commits(sides);
            &&& forall|k: int|
                0 <= k < sides.len() ==> told(
                    commits,
                    (#[trigger] sides[k]).tenant,
                    sides[k].commit.commit_id.0@,
                )
            &&& forall|k: int|
                0 <= k < commits.len() ==> exists|j: int|
                    0 <= j < sides.len() && (#[trigger] sides[j]).tenant == (
                    #[trigger] commits[k]).0 && sides[j].commit == commits[k].1
        }),
    decreases sides.len(),
{
    if sides.len() > 0 {
        let rest = sides.drop_last();
        let earlier = with_side_commits(rest);
        let commits = with_side_commits(sides);
        lemma_side_commits_told(rest);
        lemma_commit_told(earlier, sides.last().tenant, sides.last().commit);
        assert(sides[sides.len() - 1] == sides.last());
        assert forall|k: int| 0 <= k < sides.len() implies told(
            commits,
            (#[trigger] sides[k]).tenant,
            sides[k].commit.commit_id.0@,
        ) by {
            if k < rest.len() {
                assert(rest[k] == sides[k]);
                assert(told(earlier, rest[k].tenant, rest[k].commit.commit_id.0@));
                let j = choose|j: int|
                    0 <= j < earlier.len() && (#[trigger] earlier[j]).0 == rest[k].tenant
                        && earlier[j].1.commit_id.0@ == rest[k].commit.commit_id.0@;
                assert(commits[j] == earlier[j]);
            }
        }
        assert forall|k: int| 0 <= k < commits.len() implies exists|j: int|
            0 <= j < sides.len() && (#[trigger] sides[j]).tenant == (#[trigger] commits[k]).0
                && sides[j].commit == commits[k].1 by {
            if k < earlier.len() {
                assert(commits[k] == earlier[k]);
                let j = choose|j: int|
                    0 <= j < rest.len() && (#[trigger] rest[j]).tenant == earlier[k].0
                        && rest[j].commit == earlier[k].1;
                assert(sides[j] == rest[j]);
            } else {
                assert(sides[sides.len() - 1].tenant == commits[k].0);
            }
        }
    }
}

proof fn lemma_leg_commits_told(first: Seq<(Seq<char>, CommitRef)>, legs: Seq<LegContent>)
    ensures
        ({
            let commits = with_leg_commits(first, legs);
            &&& first.len() <= commits.len()
            &&& forall|k: int| 0 <= k < first.len() ==> #[trigger] commits[k] == first[k]
            &&& forall|k: int|
                0 <= k < legs.len() ==> told(
                    commits,
                    (#[trigger] legs[k]).tenant,
                    legs[k].commit.commit_id.0@,
                )
            &&& forall|k: int|
                first.len() <= k < commits.len() ==> exists|j: int|
                    0 <= j < legs.len() && (#[trigger] legs[j]).tenant == (
                    #[trigger] commits[k]).0 && legs[j].commit == commits[k].1
        }),
    decreases legs.len(),
{
    if legs.len() > 0 {
        let rest = legs.drop_last();
        let earlier = with_leg_commits(first, rest);
        let commits = with_leg_commits(first, legs);
        lemma_leg_commits_told(first, rest);
        lemma_commit_told(earlier, legs.last().tenant, legs.last().commit);
        assert(legs[legs.len() - 1] == legs.last());
        assert forall|k: int| 0 <= k < first.len() implies #[trigger] commits[k] == first[k] by {
            assert(earlier[k] == first[k]);
        }
        assert forall|k: int| 0 <= k < legs.len() implies told(
            commits,
            (#[trigger] legs[k]).tenant,
            legs[k].commit.commit_id.0@,
        ) by {
            if k < rest.len() {
                assert(rest[k] == legs[k]);
                assert(told(earlier, rest[k].tenant, rest[k].commit.commit_id.0@));
                let j = choose|j: int|
                    0 <= j < earlier.len() && (#[trigger] earlier[j]).0 == rest[k].tenant
                        && earlier[j].1.commit_id.0@ == rest[k].commit.commit_id.0@;
                assert(commits[j] == earlier[j]);
            }
        }
        assert forall|k: int| first.len() <= k < commits.len() implies exists|j: int|
            0 <= j < legs.len() && (#[trigger] legs[j]).tenant == (#[trigger] commits[k]).0
                && legs[j].commit == commits[k].1 by {
            if k < earlier.len() {
                assert(commits[k] == earlier[k]);
                let j = choose|j: int|
                    0 <= j < rest.len() && (#[trigger] rest[j]).tenant == earlier[k].0
                        && rest[j].commit == earlier[k].1;
                assert(legs[j] == rest[j]);
            } else {
                assert(legs[legs.len() - 1].tenant == commits[k].0);
            }
        }
    }
}

// ---------------------------------------------------------------------------
// Proofs.
// ---------------------------------------------------------------------------
/// Whether a request is for an asset of a side, at the commit that settled it:
/// the asset's own where the side knows it, else the side's.
pub open spec fn asks_after(request: RequestContent, side: SideContent, asset: Seq<char>) -> bool {
    &&& request.tenant == side.tenant
    &&& request.asset == asset
    &&& side.commits.contains_key(asset) ==> request.commit_id
        == side.commits[asset].commit_id.0@
    &&& !side.commits.contains_key(asset) ==> request.commit_id == side.commit.commit_id.0@
}

/// Whether one of the groups of requests asks after an asset of a side.
pub open spec fn asked_after(
    groups: Seq<Seq<RequestContent>>,
    side: SideContent,
    asset: Seq<char>,
) -> bool {
    exists|g: int, q: int|
        0 <= g < groups.len() && 0 <= q < groups[g].len() && asks_after(
            #[trigger] groups[g][q],
            side,
            asset,
        )
}

/// The state proofs that are asked for are those of every asset that was
/// settled on any side, at the commit that settled it; no group is empty, and
/// no request is for anything else.
pub proof fn law_every_settled_asset_is_asked_after(sides: Seq<SideContent>)
    ensures
        forall|s: int, a: int|
            0 <= s < sides.len() && 0 <= a < sides[s].assets.len() ==> asked_after(
                requests_for(sides),
                sides[s],
                #[trigger] sides[s].assets[a],
            ),
        forall|g: int|
            0 <= g < requests_for(sides).len() ==> (#[trigger] requests_for(sides)[g]).len() > 0,
        forall|g: int, q: int|
            0 <= g < requests_for(sides).len() && 0 <= q < requests_for(sides)[g].len()
                ==> stands_for_some(#[trigger] requests_for(sides)[g][q], sides),
    decreases sides.len(),
{
    let groups = requests_for(sides);
    if sides.len() > 0 {
        let rest = sides.drop_last();
        let earlier = requests_for(rest);
        let last = sides.last();
        law_every_settled_asset_is_asked_after(rest);
        assert(sides[sides.len() - 1] == last);
        assert forall|s: int, a: int|
            0 <= s < sides.len() && 0 <= a < sides[s].assets.len() implies asked_after(
            groups,
            sides[s],
            #[trigger] sides[s].assets[a],
        ) by {
            if s < rest.len() {
                assert(rest[s] == sides[s]);
                assert(asked_after(earlier, rest[s], rest[s].assets[a]));
                let (g, q) = choose|g: int, q: int|
                    0 <= g < earlier.len() && 0 <= q < earlier[g].len() && asks_after(
                        #[trigger] earlier[g][q],
                        rest[s],
                        rest[s].assets[a],
                    );
                assert(groups[g] == earlier[g]);
                assert(asks_after(groups[g][q], sides[s], sides[s].assets[a]));
            } else {
                let g = groups.len() - 1;
                assert(groups[g] == side_requests(last));
                assert(asks_after(groups[g][a], sides[s], sides[s].assets[a]));
            }
        }
        assert forall|g: int| 0 <= g < groups.len() implies (#[trigger] groups[g]).len() > 0 by {
            if g < earlier.len() {
                assert(groups[g] == earlier[g]);
            }
        }
        assert forall|g: int, q: int|
            0 <= g < groups.len() && 0 <= q < groups[g].len() implies stands_for_some(
            #[trigger] groups[g][q],
            sides,
        ) by {
            if g < earlier.len() {
                assert(groups[g] == earlier[g]);
                assert(stands_for_some(earlier[g][q], rest));
                let (s, a) = choose|s: int, a: int|
                    0 <= s < rest.len() && 0 <= a < rest[s].assets.len() && asks_after(
                        earlier[g][q],
                        rest[s],
                        #[trigger] rest[s].assets[a],
                    );
                assert(sides[s] == rest[s]);
                assert(asks_after(groups[g][q], sides[s], sides[s].assets[a]));
            } else {
                assert(groups[g] == side_requests(last));
                let s = sides.len() - 1;
                assert(asks_after(groups[g][q], sides[s], sides[s].assets[q]));
            }
        }
    }
}

/// Whether a request is for an asset that was settled on one of the sides.
pub open spec fn stands_for_some(request: RequestContent, sides: Seq<SideContent>) -> bool {
    exists|s: int, a: int|
        0 <= s < sides.len() && 0 <= a < sides[s].assets.len() && asks_after(
            request,
            sides[s],
            #[trigger] sides[s].assets[a],
        )
}

/// The commits that are loaded are the first of each tenant: every tenant has
/// one, at or before any other of its commits, and only one.
pub proof fn law_first_commits_stand_for_their_tenants(
    legs: Seq<(TenantId, CommitId)>,
    at: int,
    a: int,
    b: int,
) -> (first: int)
    requires
        0 <= at < legs.len(),
    ensures
        0 <= first <= at,
        legs[first].0.0@ == legs[at].0.0@,
        first_of_tenant(legs, first),
        first_of_tenant(legs, a) && first_of_tenant(legs, b) && legs[a].0.0@ == legs[b].0.0@ ==> a
            == b,
    decreases at,
{
    if exists|k: int| 0 <= k < at && (#[trigger] legs[k]).0.0@ == legs[at].0.0@ {
        let k = choose|k: int| 0 <= k < at && (#[trigger] legs[k]).0.0@ == legs[at].0.0@;
        law_first_commits_stand_for_their_tenants(legs, k, a, b)
    } else {
        at
    }
}

} // verus!
