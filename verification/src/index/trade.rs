//! Trade records: what the index keeps of a trade.
use vstd::prelude::*;

use crate::domain::commit::CommitRef;
use crate::domain::event::Event;
use crate::domain::ids::{EventId, Operation, ResourceId, SubjectId, TenantId};
use crate::index::table::Table;

verus! {

/// Where a trade stands.
#[derive(Debug, Clone, Copy, PartialEq, Eq, Structural)]
pub enum TradeStatus {
    /// Assets are held for the trade.
    Open,
    /// Assets have changed hands.
    Settled,
    /// Assets have been released.
    Cancelled,
}

/// An event of a trade.
#[derive(Debug, Clone, PartialEq, Eq)]
pub struct TradeEventRef {
    /// The event.
    pub event_id: EventId,
    /// The tenant that it belongs to.
    pub tenant_id: TenantId,
    /// Its operation.
    pub operation: Operation,
}

/// What one tenant settled in a trade.
#[derive(Debug, Clone, PartialEq, Eq)]
pub struct TradeSide {
    /// The tenant.
    pub tenant: TenantId,
    /// The settled assets, in order of their first settlement.
    pub settle_assets: Vec<ResourceId>,
    /// The owner before.
    pub from_owner: String,
    /// The owner after.
    pub to_owner: String,
    /// The commit of the first settlement.
    pub settle_commit: CommitRef,
    /// The commit that settled each asset.
    pub settle_commits_by_asset: Table<CommitRef>,
    /// The settle events.
    pub settle_event_ids: Vec<EventId>,
}

/// Value that moved with a trade.
#[derive(Debug, Clone, PartialEq, Eq)]
pub struct TradeValueLeg {
    /// The balance that moved.
    pub resource: ResourceId,
    /// The declared amount.
    pub amount: String,
    /// The recipient.
    pub to_subject: SubjectId,
    /// The debit and credit events.
    pub pair_event_ids: Vec<EventId>,
    /// The tenant that the balance belongs to.
    pub tenant: TenantId,
    /// The commit of the pair.
    pub commit: CommitRef,
}

/// What the index keeps of a trade.
#[derive(Debug, Clone, PartialEq, Eq)]
pub struct TradeRecord {
    /// The trade.
    pub trade_id: String,
    /// Where it stands.
    pub status: TradeStatus,
    /// The sides, in tenant order.
    pub sides: Vec<TradeSide>,
    /// The value that moved.
    pub value_legs: Vec<TradeValueLeg>,
    /// The events, in canonical order.
    pub events: Vec<TradeEventRef>,
}

/// An event of a trade's history.
#[derive(Debug, Clone, PartialEq, Eq)]
pub struct TradeEvent {
    /// The event.
    pub event: Event,
    /// The tenant that it belongs to.
    pub tenant_id: TenantId,
}

/// The ordered history of a trade.
#[derive(Debug, Clone, PartialEq, Eq)]
pub struct TradeHistory {
    /// The trade.
    pub trade_id: String,
    /// Where it stands.
    pub status: TradeStatus,
    /// The events, in canonical order.
    pub events: Vec<TradeEvent>,
    /// The distinct commits, with their tenants.
    pub commits: Vec<(TenantId, CommitRef)>,
}

// ---------------------------------------------------------------------------
// Contents.
// ---------------------------------------------------------------------------
/// The content of an event reference.
#[verifier::ext_equal]
pub struct RefContent {
    /// The event.
    pub event_id: Seq<char>,
    /// The tenant.
    pub tenant_id: Seq<char>,
    /// The operation.
    pub operation: Seq<char>,
}

/// The content of a side.
#[verifier::ext_equal]
pub struct SideContent {
    /// The tenant.
    pub tenant: Seq<char>,
    /// The settled assets.
    pub assets: Seq<Seq<char>>,
    /// The owner before.
    pub from_owner: Seq<char>,
    /// The owner after.
    pub to_owner: Seq<char>,
    /// The commit of the first settlement.
    pub commit: CommitRef,
    /// The commit that settled each asset.
    pub commits: Map<Seq<char>, CommitRef>,
    /// The settle events.
    pub event_ids: Seq<Seq<char>>,
}

/// The content of a value leg.
#[verifier::ext_equal]
pub struct LegContent {
    /// The balance.
    pub resource: Seq<char>,
    /// The declared amount.
    pub amount: Seq<char>,
    /// The recipient.
    pub to_subject: Seq<char>,
    /// The debit and credit events.
    pub event_ids: Seq<Seq<char>>,
    /// The tenant.
    pub tenant: Seq<char>,
    /// The commit.
    pub commit: CommitRef,
}

/// The content of a trade record.
#[verifier::ext_equal]
pub struct RecordContent {
    /// The trade.
    pub trade_id: Seq<char>,
    /// Where it stands.
    pub status: TradeStatus,
    /// The sides.
    pub sides: Seq<SideContent>,
    /// The value legs.
    pub legs: Seq<LegContent>,
    /// The events.
    pub events: Seq<RefContent>,
}

/// The texts of event ids.
pub open spec fn event_texts(ids: Seq<EventId>) -> Seq<Seq<char>> {
    ids.map_values(|id: EventId| id.0@)
}

/// The texts of resource ids.
pub open spec fn resource_texts(ids: Seq<ResourceId>) -> Seq<Seq<char>> {
    ids.map_values(|id: ResourceId| id.0@)
}

/// The contents of sides.
pub open spec fn side_contents(sides: Seq<TradeSide>) -> Seq<SideContent> {
    sides.map_values(|side: TradeSide| side@)
}

/// The contents of value legs.
pub open spec fn leg_contents(legs: Seq<TradeValueLeg>) -> Seq<LegContent> {
    legs.map_values(|leg: TradeValueLeg| leg@)
}

/// The contents of event references.
pub open spec fn ref_contents(refs: Seq<TradeEventRef>) -> Seq<RefContent> {
    refs.map_values(|r: TradeEventRef| r@)
}

impl View for TradeEventRef {
    type V = RefContent;

    open spec fn view(&self) -> RefContent {
        RefContent {
            event_id: self.event_id.0@,
            tenant_id: self.tenant_id.0@,
            operation: self.operation.0@,
        }
    }
}

impl View for TradeSide {
    type V = SideContent;

    open spec fn view(&self) -> SideContent {
        SideContent {
            tenant: self.tenant.0@,
            assets: resource_texts(self.settle_assets@),
            from_owner: self.from_owner@,
            to_owner: self.to_owner@,
            commit: self.settle_commit,
            commits: self.settle_commits_by_asset@,
            event_ids: event_texts(self.settle_event_ids@),
        }
    }
}

impl View for TradeValueLeg {
    type V = LegContent;

    open spec fn view(&self) -> LegContent {
        LegContent {
            resource: self.resource.0@,
            amount: self.amount@,
            to_subject: self.to_subject.0@,
            event_ids: event_texts(self.pair_event_ids@),
            tenant: self.tenant.0@,
            commit: self.commit,
        }
    }
}

impl View for TradeRecord {
    type V = RecordContent;

    open spec fn view(&self) -> RecordContent {
        RecordContent {
            trade_id: self.trade_id@,
            status: self.status,
            sides: side_contents(self.sides@),
            legs: leg_contents(self.value_legs@),
            events: ref_contents(self.events@),
        }
    }
}

/// The record of a trade of which nothing is known yet.
pub open spec fn fresh_record(trade_id: Seq<char>) -> RecordContent {
    RecordContent {
        trade_id,
        status: TradeStatus::Open,
        sides: Seq::empty(),
        legs: Seq::empty(),
        events: Seq::empty(),
    }
}

impl TradeRecord {
    /// The record of a trade of which nothing is known yet.
    pub fn new(trade_id: String) -> (r: Self)
        ensures
            r@ == fresh_record(trade_id@),
    {
        let record = TradeRecord {
            trade_id,
            status: TradeStatus::Open,
            sides: Vec::new(),
            value_legs: Vec::new(),
            events: Vec::new(),
        };
        assert(record@ =~= fresh_record(trade_id@));
        record
    }
}

} // verus!
