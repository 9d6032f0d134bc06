//! Resource state: types, payloads, projections and commitments.
use vstd::prelude::*;

use crate::domain::digest::ContentDigest;
use crate::domain::ids::{
    has_prefix, starts_with, CommitId, EventId, Operation, ResourceId, TenantId,
};
use crate::json::{as_text, member, Json, Value};
use crate::text::same_text;

verus! {

/// The kinds of resource state.
#[derive(Debug, Clone, Copy, PartialEq, Eq, Structural)]
pub enum StateType {
    /// A unique asset: owner and status.
    UniqueAsset,
    /// A consumable stack: subject, quantity and unit.
    ConsumableStack,
    /// A fungible balance: subject, balance and unit.
    FungibleBalance,
    /// An entitlement: subject, status and transferability.
    Entitlement,
    /// A metered resource: subject, remaining and maximum.
    MeteredResource,
    /// A marketplace listing: seller and status.
    Listing,
    /// An escrow: buyer, seller and status.
    Escrow,
}

impl StateType {
    /// Whether resources of this kind are keyed by their holder as well.
    pub open spec fn subject_held(self) -> bool {
        self == StateType::ConsumableStack || self == StateType::FungibleBalance || self
            == StateType::Entitlement || self == StateType::MeteredResource
    }

    /// Whether resources of this kind are keyed by their holder as well.
    pub fn is_subject_held(&self) -> (r: bool)
        ensures
            r == self.subject_held(),
    {
        match self {
            StateType::ConsumableStack
            | StateType::FungibleBalance
            | StateType::Entitlement
            | StateType::MeteredResource => true,
            StateType::UniqueAsset | StateType::Listing | StateType::Escrow => false,
        }
    }
}

/// The state type with the given name. The names are this library's own.
pub open spec fn state_type_named(name: Seq<char>) -> Option<StateType> {
    if name == "unique_asset"@ {
        Some(StateType::UniqueAsset)
    } else if name == "consumable_stack"@ {
        Some(StateType::ConsumableStack)
    } else if name == "fungible_balance"@ {
        Some(StateType::FungibleBalance)
    } else if name == "entitlement"@ {
        Some(StateType::Entitlement)
    } else if name == "metered_resource"@ {
        Some(StateType::MeteredResource)
    } else if name == "listing"@ {
        Some(StateType::Listing)
    } else if name == "escrow"@ {
        Some(StateType::Escrow)
    } else {
        None
    }
}

impl StateType {
    /// The state type with the given name.
    pub fn from_name(name: &str) -> (r: Option<StateType>)
        ensures
            r == state_type_named(name@),
    {
        if same_text(name, "unique_asset") {
            Some(StateType::UniqueAsset)
        } else if same_text(name, "consumable_stack") {
            Some(StateType::ConsumableStack)
        } else if same_text(name, "fungible_balance") {
            Some(StateType::FungibleBalance)
        } else if same_text(name, "entitlement") {
            Some(StateType::Entitlement)
        } else if same_text(name, "metered_resource") {
            Some(StateType::MeteredResource)
        } else if same_text(name, "listing") {
            Some(StateType::Listing)
        } else if same_text(name, "escrow") {
            Some(StateType::Escrow)
        } else {
            None
        }
    }
}

/// The state type that an operation name implies by its prefix. The prefixes
/// are this library's own.
pub open spec fn state_type_hint(operation: Seq<char>) -> Option<StateType> {
    if has_prefix(operation, "asset."@) {
        Some(StateType::UniqueAsset)
    } else if has_prefix(operation, "stack."@) {
        Some(StateType::ConsumableStack)
    } else if has_prefix(operation, "balance."@) {
        Some(StateType::FungibleBalance)
    } else if has_prefix(operation, "entitlement."@) {
        Some(StateType::Entitlement)
    } else if has_prefix(operation, "meter."@) {
        Some(StateType::MeteredResource)
    } else if has_prefix(operation, "listing."@) {
        Some(StateType::Listing)
    } else if has_prefix(operation, "escrow."@) {
        Some(StateType::Escrow)
    } else {
        None
    }
}

impl Operation {
    /// The state type that the name implies by its prefix.
    pub fn state_type_hint(&self) -> (r: Option<StateType>)
        ensures
            r == state_type_hint(self.0@),
    {
        let name = self.0.as_str();
        if starts_with(name, "asset.") {
            Some(StateType::UniqueAsset)
        } else if starts_with(name, "stack.") {
            Some(StateType::ConsumableStack)
        } else if starts_with(name, "balance.") {
            Some(StateType::FungibleBalance)
        } else if starts_with(name, "entitlement.") {
            Some(StateType::Entitlement)
        } else if starts_with(name, "meter.") {
            Some(StateType::MeteredResource)
        } else if starts_with(name, "listing.") {
            Some(StateType::Listing)
        } else if starts_with(name, "escrow.") {
            Some(StateType::Escrow)
        } else {
            None
        }
    }
}

/// The state of a resource: its kind and its payload document.
#[derive(Debug, PartialEq, Eq)]
pub struct ResourceState {
    /// The kind of state.
    pub state_type: StateType,
    /// The payload.
    pub payload: Value,
}

/// The content of a resource state.
#[verifier::ext_equal]
pub struct StateContent {
    /// The kind of state.
    pub state_type: StateType,
    /// The payload.
    pub payload: Json,
}

impl View for ResourceState {
    type V = StateContent;

    open spec fn view(&self) -> StateContent {
        StateContent { state_type: self.state_type, payload: self.payload@ }
    }
}

impl Clone for ResourceState {
    fn clone(&self) -> (r: Self)
        ensures
            r@ == self@,
    {
        ResourceState { state_type: self.state_type, payload: self.payload.clone() }
    }
}

impl StateContent {
    /// The holder that a subject-held state names.
    pub open spec fn subject(self) -> Option<Seq<char>> {
        if self.state_type.subject_held() {
            as_text(member(self.payload, "subject"@))
        } else {
            None
        }
    }

    /// The owner that a unique asset names.
    pub open spec fn owner(self) -> Option<Seq<char>> {
        if self.state_type == StateType::UniqueAsset {
            as_text(member(self.payload, "owner"@))
        } else {
            None
        }
    }

    /// The trade that holds a unique asset.
    pub open spec fn trade_id(self) -> Option<Seq<char>> {
        if self.state_type == StateType::UniqueAsset {
            as_text(member(self.payload, "trade_id"@))
        } else {
            None
        }
    }
}

impl ResourceState {
    /// A state of the given kind with the given payload.
    pub fn new(state_type: StateType, payload: Value) -> (r: Self)
        ensures
            r.state_type == state_type,
            r.payload == payload,
    {
        ResourceState { state_type, payload }
    }

    /// The holder, when the state is subject-held and names one.
    pub fn subject(&self) -> (r: Option<&str>)
        ensures
            match r {
                Some(text) => self@.subject() == Some(text@),
                None => self@.subject() is None,
            },
    {
        if self.state_type.is_subject_held() {
            self.payload.text_member("subject")
        } else {
            None
        }
    }

    /// The owner, when the state is a unique asset and names one.
    pub fn owner(&self) -> (r: Option<&str>)
        ensures
            match r {
                Some(text) => self@.owner() == Some(text@),
                None => self@.owner() is None,
            },
    {
        match self.state_type {
            StateType::UniqueAsset => self.payload.text_member("owner"),
            _ => None,
        }
    }

    /// The trade that holds the asset, when the state is a unique asset.
    pub fn trade_id(&self) -> (r: Option<&str>)
        ensures
            match r {
                Some(text) => self@.trade_id() == Some(text@),
                None => self@.trade_id() is None,
            },
    {
        match self.state_type {
            StateType::UniqueAsset => self.payload.text_member("trade_id"),
            _ => None,
        }
    }
}

/// The current derived state of a resource.
#[derive(Debug, PartialEq, Eq)]
pub struct StateProjection {
    /// The tenant scope.
    pub tenant_id: TenantId,
    /// The resource.
    pub resource_id: ResourceId,
    /// The kind of state.
    pub state_type: StateType,
    /// The version: the number of transitions so far.
    pub version: u64,
    /// The event that produced this version.
    pub last_event_id: EventId,
    /// The commit that pinned this version.
    pub last_commit_id: CommitId,
    /// The digest of the state.
    pub state_hash: ContentDigest,
    /// The state.
    pub state: ResourceState,
}

/// A state version as an event records it.
#[derive(Debug, PartialEq, Eq)]
pub struct StateCommitment {
    /// The version.
    pub version: u64,
    /// The digest of the state.
    pub state_hash: ContentDigest,
    /// The state.
    pub state: ResourceState,
}

/// Whether two projections have the same content.
pub open spec fn same_projection(a: StateProjection, b: StateProjection) -> bool {
    &&& a.tenant_id == b.tenant_id
    &&& a.resource_id == b.resource_id
    &&& a.state_type == b.state_type
    &&& a.version == b.version
    &&& a.last_event_id == b.last_event_id
    &&& a.last_commit_id == b.last_commit_id
    &&& a.state_hash == b.state_hash
    &&& a.state@ == b.state@
}

/// Whether two commitments have the same content.
pub open spec fn same_commitment(a: StateCommitment, b: StateCommitment) -> bool {
    a.version == b.version && a.state_hash == b.state_hash && a.state@ == b.state@
}

impl Clone for StateProjection {
    fn clone(&self) -> (r: Self)
        ensures
            same_projection(r, *self),
    {
        StateProjection {
            tenant_id: self.tenant_id.clone(),
            resource_id: self.resource_id.clone(),
            state_type: self.state_type,
            version: self.version,
            last_event_id: self.last_event_id.clone(),
            last_commit_id: self.last_commit_id.clone(),
            state_hash: self.state_hash,
            state: self.state.clone(),
        }
    }
}

impl Clone for StateCommitment {
    fn clone(&self) -> (r: Self)
        ensures
            same_commitment(r, *self),
    {
        StateCommitment {
            version: self.version,
            state_hash: self.state_hash,
            state: self.state.clone(),
        }
    }
}

} // verus!
