//! The decisions of the trade service.
//!
//! The service reads and writes through stores. What it asks of them, what it
//! makes of their answers, and how a history comes together is decided here.
use vstd::prelude::*;

use crate::domain::event::Event;
use crate::domain::ids::{CommitId, ResourceId, TenantId};
use crate::index::error::{ProofError, TradeServiceError};
use crate::index::history::{
    event_at, reconstruct_history, recounts, unresolved, EventsById,
};
use crate::index::table::Table;
use crate::index::trade::{
    RecordContent, SideContent, TradeEventRef, TradeHistory, TradeRecord, TradeSide,
};
use crate::ports::errors::{
    CommitStoreError, EventStoreError, ProofIndexError, TradeIndexError,
};
use crate::text::{join5, join7};

verus! {

/// The trade index's answer, with its failure as the service reports it.
pub fn index_reply<T>(reply: Result<T, TradeIndexError>) -> (r: Result<T, TradeServiceError>)
    ensures
        match reply {
            Ok(value) => r == Ok::<T, TradeServiceError>(value),
            Err(failure) => r matches Err(TradeServiceError::TradeIndex(text)) && text@
                == failure.text(),
        },
{
    match reply {
        Ok(value) => Ok(value),
        Err(failure) => Err(TradeServiceError::TradeIndex(failure.message())),
    }
}

// ---------------------------------------------------------------------------
// History.
// ---------------------------------------------------------------------------
/// Where a history request stands.
pub enum HistoryStep {
    /// Needs a recorded event.
    FindEvent(AwaitEvent),
    /// Finished: the history, or why there is none.
    Done(Result<TradeHistory, TradeServiceError>),
}

/// Whether every reference before a position is resolved.
pub open spec fn resolved_upto(record: RecordContent, events: EventsById, at: int) -> bool {
    forall|k: int| 0 <= k < at ==> !#[trigger] unresolved(record, events, k)
}

/// Whether a step continues a history at a reference: it asks for the event,
/// or, past the last one, gives the history.
pub open spec fn continues_history(
    r: HistoryStep,
    record: RecordContent,
    events: EventsById,
    at: int,
) -> bool {
    if at < record.events.len() {
        r matches HistoryStep::FindEvent(next) && next.record() == record && next.events()
            == events && next.at() == at
    } else {
        r matches HistoryStep::Done(Ok(history)) && recounts(history, record, events)
    }
}

fn continue_history(record: TradeRecord, events: EventsById, at: usize) -> (r: HistoryStep)
    requires
        at <= record@.events.len(),
        resolved_upto(record@, events, at as int),
    ensures
        continues_history(r, record@, events, at as int),
{
    assert(record@.events.len() == record.events@.len());
    if at < record.events.len() {
        return HistoryStep::FindEvent(AwaitEvent { record, events, at });
    }
    match reconstruct_history(&record, &events) {
        Ok(history) => HistoryStep::Done(Ok(history)),
        Err(failure) => HistoryStep::Done(Err(TradeServiceError::Index(failure))),
    }
}

/// Begins the history of a record.
pub fn begin_history(record: TradeRecord) -> (r: HistoryStep)
    ensures
        exists|none: EventsById|
            none@ == Map::<Seq<char>, Table<Event>>::empty() && #[trigger] continues_history(
                r,
                record@,
                none,
                0,
            ),
{
    let events: EventsById = Table::new();
    continue_history(record, events, 0)
}

/// Waits for a recorded event.
pub struct AwaitEvent {
    record: TradeRecord,
    events: EventsById,
    at: usize,
}

/// Whether events are others with one more put under its tenant and id.
pub open spec fn with_event(
    after: EventsById,
    before: EventsById,
    tenant: Seq<char>,
    id: Seq<char>,
    event: Event,
) -> bool {
    forall|t: Seq<char>, i: Seq<char>| #[trigger]
        event_at(after, t, i) == if t == tenant && i == id {
            Some(event)
        } else {
            event_at(before, t, i)
        }
}

impl AwaitEvent {
    #[verifier::type_invariant]
    spec fn consistent(self) -> bool {
        self.at < self.record@.events.len() && resolved_upto(
            self.record@,
            self.events,
            self.at as int,
        )
    }

    /// The record.
    pub closed spec fn record(self) -> RecordContent {
        self.record@
    }

    /// The events found so far.
    pub closed spec fn events(self) -> EventsById {
        self.events
    }

    /// The position of the reference.
    pub closed spec fn at(self) -> int {
        self.at as int
    }

    /// The reference to resolve.
    pub fn reference(&self) -> (r: &TradeEventRef)
        ensures
            0 <= self.at() < self.record().events.len(),
            r@ == self.record().events[self.at()],
    {
        proof {
            use_type_invariant(self);
        }
        assert(self.record@.events.len() == self.record.events@.len());
        &self.record.events[self.at]
    }

    /// Continues with the store's answer.
    pub fn resume(self, found: Result<Option<Event>, EventStoreError>) -> (r: HistoryStep)
        ensures
            0 <= self.at() < self.record().events.len(),
            match found {
                Err(failure) => r matches HistoryStep::Done(
                    Err(TradeServiceError::EventStore(text)),
                ) && text@ == failure.text(),
                Ok(None) => r matches HistoryStep::Done(
                    Err(TradeServiceError::MissingEvent(id)),
                ) && id@ == self.record().events[self.at()].event_id,
                Ok(Some(event)) => exists|events: EventsById| #[trigger]
                    continues_history(r, self.record(), events, self.at() + 1) && with_event(
                        events,
                        self.events(),
                        self.record().events[self.at()].tenant_id,
                        self.record().events[self.at()].event_id,
                        event,
                    ),
            },
    {
        proof {
            use_type_invariant(&self);
        }
        let ghost whole = self;
        let AwaitEvent { record, events, at } = self;
        let ghost refs = record@.events;
        assert(refs.len() == record.events@.len());
        assert(refs[at as int] == record.events@[at as int]@);
        match found {
            Err(failure) => HistoryStep::Done(
                Err(TradeServiceError::EventStore(failure.message())),
            ),
            Ok(None) => HistoryStep::Done(
                Err(TradeServiceError::MissingEvent(record.events[at].event_id.0.clone())),
            ),
            Ok(Some(event)) => {
                let tenant = record.events[at].tenant_id.0.clone();
                let id = record.events[at].event_id.0.clone();
                let mut events = events;
                let ghost before = events;
                let mut own: Table<Event> = match events.remove(tenant.as_str()) {
                    Some(own) => own,
                    None => Table::new(),
                };
                own.insert(id, event);
                events.insert(tenant, own);
                proof {
                    assert(with_event(
                        events,
                        before,
                        refs[at as int].tenant_id,
                        refs[at as int].event_id,
                        event,
                    ));
                    assert forall|k: int| 0 <= k < at + 1 implies !#[trigger] unresolved(
                        record@,
                        events,
                        k,
                    ) by {
                        if k < at {
                            assert(!unresolved(record@, before, k));
                        }
                    }
                }
                assert(at < record.events.len());
                let step = continue_history(record, events, at + 1);
                assert(continues_history(step, whole.record(), events, whole.at() + 1));
                step
            },
        }
    }
}

// ---------------------------------------------------------------------------
// Proofs.
// ---------------------------------------------------------------------------
/// A state proof that a trade proof needs.
#[derive(Debug, Clone, PartialEq, Eq)]
pub struct ProofRequest {
    /// The tenant.
    pub tenant: TenantId,
    /// The settled asset.
    pub asset: ResourceId,
    /// The commit that settled it.
    pub commit_id: CommitId,
}

/// The content of a request.
#[verifier::ext_equal]
pub struct RequestContent {
    /// The tenant.
    pub tenant: Seq<char>,
    /// The asset.
    pub asset: Seq<char>,
    /// The commit.
    pub commit_id: Seq<char>,
}

impl View for ProofRequest {
    type V = RequestContent;

    open spec fn view(&self) -> RequestContent {
        RequestContent {
            tenant: self.tenant.0@,
            asset: self.asset.0@,
            commit_id: self.commit_id.0@,
        }
    }
}

/// The contents of requests.
pub open spec fn request_contents(list: Seq<ProofRequest>) -> Seq<RequestContent> {
    list.map_values(|request: ProofRequest| request@)
}

/// The contents of groups of requests.
pub open spec fn group_contents(list: Seq<Vec<ProofRequest>>) -> Seq<Seq<RequestContent>> {
    list.map_values(|group: Vec<ProofRequest>| request_contents(group@))
}

/// The commit that settled an asset of a side.
pub open spec fn settled_at(side: SideContent, asset: Seq<char>) -> Seq<char> {
    if side.commits.contains_key(asset) {
        side.commits[asset].commit_id.0@
    } else {
        side.commit.commit_id.0@
    }
}

/// The state proofs that a side needs: one for each asset, at the commit that
/// settled that asset.
pub open spec fn side_requests(side: SideContent) -> Seq<RequestContent> {
    Seq::new(
        side.assets.len(),
        |i: int|
            RequestContent {
                tenant: side.tenant,
                asset: side.assets[i],
                commit_id: settled_at(side, side.assets[i]),
            },
    )
}

/// The state proofs that sides need, side by side; sides without assets need
/// none.
pub open spec fn requests_for(sides: Seq<SideContent>) -> Seq<Seq<RequestContent>>
    decreases sides.len(),
{
    if sides.len() == 0 {
        Seq::empty()
    } else {
        let earlier = requests_for(sides.drop_last());
        if sides.last().assets.len() > 0 {
            earlier.push(side_requests(sides.last()))
        } else {
            earlier
        }
    }
}

fn requests_of_side(side: &TradeSide) -> (r: Vec<ProofRequest>)
    ensures
        request_contents(r@) == side_requests(side@),
{
    let ghost wanted = side_requests(side@);
    let mut list: Vec<ProofRequest> = Vec::new();
    let mut i: usize = 0;
    assert(request_contents(list@) =~= wanted.take(0));
    while i < side.settle_assets.len()
        invariant
            i <= side.settle_assets@.len(),
            wanted == side_requests(side@),
            request_contents(list@) == wanted.take(i as int),
        decreases side.settle_assets@.len() - i,
    {
        let asset = &side.settle_assets[i];
        assert(side@.assets[i as int] == asset.0@);
        let commit_id = match side.settle_commits_by_asset.get(asset.as_str()) {
            Some(commit) => commit.commit_id.clone(),
            None => side.settle_commit.commit_id.clone(),
        };
        let request = ProofRequest { tenant: side.tenant.clone(), asset: asset.clone(), commit_id };
        let ghost before = request_contents(list@);
        list.push(request);
        proof {
            assert(request@ == wanted[i as int]);
            assert(request_contents(list@) =~= before.push(request@));
            assert(wanted.take(i + 1) =~= wanted.take(i as int).push(wanted[i as int]));
        }
        i = i + 1;
    }
    assert(wanted.take(i as int) =~= wanted);
    list
}

/// The state proofs that a trade proof needs, side by side.
pub fn proof_requests(record: &TradeRecord) -> (r: Vec<Vec<ProofRequest>>)
    ensures
        group_contents(r@) == requests_for(record@.sides),
{
    let ghost sides = record@.sides;
    let mut groups: Vec<Vec<ProofRequest>> = Vec::new();
    let mut i: usize = 0;
    assert(sides.take(0) =~= Seq::empty());
    assert(group_contents(groups@) =~= requests_for(sides.take(0)));
    while i < record.sides.len()
        invariant
            i <= record.sides@.len(),
            sides == record@.sides,
            group_contents(groups@) == requests_for(sides.take(i as int)),
        decreases record.sides@.len() - i,
    {
        proof {
            assert(sides.take(i + 1).drop_last() =~= sides.take(i as int));
            assert(sides.take(i + 1).last() == record.sides@[i as int]@);
            assert(sides[i as int].assets.len() == record.sides@[i as int].settle_assets@.len());
        }
        if record.sides[i].settle_assets.len() > 0 {
            let ghost before = group_contents(groups@);
            let list = requests_of_side(&record.sides[i]);
            groups.push(list);
            assert(group_contents(groups@) =~= before.push(request_contents(list@)));
        }
        i = i + 1;
    }
    assert(sides.take(i as int) =~= sides);
    groups
}

/// The complaint about a state proof that is not stored.
pub open spec fn missing_proof(request: RequestContent) -> Seq<char> {
    "no state proof stored for settle asset `"@ + request.asset + "` in tenant `"@ + request.tenant
        + "` at commit `"@ + request.commit_id + "`"@
}

/// The proof index's answer to a request. A proof that is not stored fails
/// the request: a trade proof never leaves out a settled asset.
pub fn proof_reply<T>(request: &ProofRequest, reply: Result<Option<T>, ProofIndexError>) -> (r:
    Result<T, TradeServiceError>)
    ensures
        match reply {
            Ok(Some(proof)) => r == Ok::<T, TradeServiceError>(proof),
            Ok(None) => r matches Err(TradeServiceError::ProofIndex(text)) && text@
                == missing_proof(request@),
            Err(failure) => r matches Err(TradeServiceError::ProofIndex(text)) && text@
                == failure.text(),
        },
{
    match reply {
        Ok(Some(proof)) => Ok(proof),
        Ok(None) => Err(
            TradeServiceError::ProofIndex(
                join7(
                    "no state proof stored for settle asset `",
                    request.asset.as_str(),
                    "` in tenant `",
                    request.tenant.as_str(),
                    "` at commit `",
                    request.commit_id.as_str(),
                    "`",
                ),
            ),
        ),
        Err(failure) => Err(TradeServiceError::ProofIndex(failure.message())),
    }
}

/// Whether a leg is the first of its tenant.
pub open spec fn first_of_tenant(legs: Seq<(TenantId, CommitId)>, at: int) -> bool {
    0 <= at < legs.len() && forall|k: int|
        0 <= k < at ==> (#[trigger] legs[k]).0.0@ != legs[at].0.0@
}

/// The legs of a trade proof whose commits are loaded: the first of each
/// tenant, in order.
pub fn commits_to_load(legs: &Vec<(TenantId, CommitId)>) -> (r: Vec<usize>)
    ensures
        forall|i: int, j: int| 0 <= i < j < r@.len() ==> #[trigger] r@[i] < #[trigger] r@[j],
        forall|at: usize| #[trigger] r@.contains(at) <==> first_of_tenant(legs@, at as int),
{
    let mut list: Vec<usize> = Vec::new();
    let mut i: usize = 0;
    while i < legs.len()
        invariant
            i <= legs@.len(),
            forall|p: int| 0 <= p < list@.len() ==> #[trigger] list@[p] < i,
            forall|p: int, q: int|
                0 <= p < q < list@.len() ==> #[trigger] list@[p] < #[trigger] list@[q],
            forall|at: usize| #[trigger]
                list@.contains(at) <==> at < i && first_of_tenant(legs@, at as int),
        decreases legs@.len() - i,
    {
        let mut j: usize = 0;
        let mut seen = false;
        while j < i
            invariant
                j <= i < legs@.len(),
                seen == exists|k: int|
                    0 <= k < j && (#[trigger] legs@[k]).0.0@ == legs@[i as int].0.0@,
            decreases i - j,
        {
            if legs[j].0.same(&legs[i].0) {
                seen = true;
            }
            j = j + 1;
        }
        let ghost before = list@;
        if !seen {
            list.push(i);
            assert(first_of_tenant(legs@, i as int));
        } else {
            assert(!first_of_tenant(legs@, i as int));
        }
        proof {
            assert forall|at: usize| #[trigger]
                list@.contains(at) <==> at < i + 1 && first_of_tenant(legs@, at as int) by {
                if before.contains(at) {
                    let k = choose|k: int| 0 <= k < before.len() && before[k] == at;
                    assert(list@[k] == at);
                }
                if list@.contains(at) {
                    let k = choose|k: int| 0 <= k < list@.len() && list@[k] == at;
                    if k < before.len() {
                        assert(before[k] == at);
                        assert(before.contains(at));
                    }
                }
                if !seen && at == i {
                    assert(list@[before.len() as int] == at);
                }
            }
        }
        i = i + 1;
    }
    list
}

/// The complaint about a commit that is not stored.
pub open spec fn missing_commit(tenant: Seq<char>, commit_id: Seq<char>) -> Seq<char> {
    "commit `"@ + commit_id + "` not found for tenant `"@ + tenant + "`"@
}

/// The commit store's answer for a leg.
pub fn commit_reply<T>(
    tenant: &TenantId,
    commit_id: &CommitId,
    reply: Result<Option<T>, CommitStoreError>,
) -> (r: Result<T, TradeServiceError>)
    ensures
        match reply {
            Ok(Some(commit)) => r == Ok::<T, TradeServiceError>(commit),
            Ok(None) => r matches Err(TradeServiceError::CommitStore(text)) && text@
                == missing_commit(tenant.0@, commit_id.0@),
            Err(failure) => r matches Err(TradeServiceError::CommitStore(text)) && text@
                == failure.text(),
        },
{
    match reply {
        Ok(Some(commit)) => Ok(commit),
        Ok(None) => Err(
            TradeServiceError::CommitStore(
                join5(
                    "commit `",
                    commit_id.as_str(),
                    "` not found for tenant `",
                    tenant.as_str(),
                    "`",
                ),
            ),
        ),
        Err(failure) => Err(TradeServiceError::CommitStore(failure.message())),
    }
}

/// The verifying key of a tenant, which must be known.
pub fn key_reply<T>(tenant: &TenantId, key: Option<T>) -> (r: Result<T, TradeServiceError>)
    ensures
        match key {
            Some(found) => r == Ok::<T, TradeServiceError>(found),
            None => r == Err::<T, TradeServiceError>(
                TradeServiceError::Proof(ProofError::KeyNotFound(tenant.0)),
            ),
        },
{
    match key {
        Some(found) => Ok(found),
        None => Err(TradeServiceError::Proof(ProofError::KeyNotFound(tenant.0.clone()))),
    }
}

} // verus!
