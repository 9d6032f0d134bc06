//! Which status an operation leaves, which operations a status admits, and
//! which operations a resource knows.
use vstd::prelude::*;

use crate::domain::state::{StateProjection, StateType};
use crate::executor::conflict::{available, escapes_of};
use crate::executor::laws::lemma_field_names;
use crate::executor::lifecycle::{follows, text_given, text_under};
use crate::executor::names::{lemma_operation_names, lemma_status_names};
use crate::executor::transition::after_state;
use crate::json::{lookup, member, Json};

verus! {

/// Whether a resource's payload has a status.
pub open spec fn stands_at(current: StateProjection, status: Seq<char>) -> bool {
    member(current.state.payload@, "status"@) == Some(Json::Str(status))
}

/// The status of an asset says what was done to it last.
pub proof fn law_assets_show_what_was_done(
    current: StateProjection,
    op: Seq<char>,
    inputs: Map<Seq<char>, Json>,
    next: StateProjection,
)
    requires
        current.state_type == StateType::UniqueAsset,
        follows(next, current, op, inputs),
    ensures
        op == "asset.mint"@ ==> stands_at(next, "active"@),
        op == "asset.transfer"@ ==> stands_at(next, "active"@),
        op == "asset.burn"@ ==> stands_at(next, "burned"@),
        op == "asset.lock"@ ==> stands_at(next, "locked"@),
        op == "asset.unlock"@ ==> stands_at(next, "active"@),
        op == "asset.list"@ ==> stands_at(next, "listed"@),
        op == "asset.delist"@ ==> stands_at(next, "active"@),
        op == "asset.escrow"@ ==> stands_at(next, "escrowed"@),
        op == "asset.release"@ ==> stands_at(next, "active"@),
        op == "asset.redeem"@ ==> stands_at(next, "redeemed"@),
        op == "asset.restore"@ ==> stands_at(next, "active"@),
        op == "asset.hard_delete"@ ==> stands_at(next, "tombstoned"@),
        op == "asset.restrict"@ && !inputs.contains_key("status"@) ==> stands_at(
            next,
            "restricted"@,
        ),
        forall|status: Seq<char>|
            op == "asset.restrict"@ && lookup(inputs, "status"@) == Some(Json::Str(status))
                ==> #[trigger] stands_at(next, status),
        op == "trade.lock"@ ==> stands_at(next, "trade_held"@),
        op == "trade.unlock"@ ==> stands_at(next, "active"@),
        op == "trade.settle"@ ==> stands_at(next, "active"@),
{
    lemma_operation_names();
    lemma_field_names();
}

/// The status of an entitlement, a listing or an escrow says how it stands: a
/// listing that was bought is sold and one that was called off is cancelled, an
/// escrow is released or refunded, and so on.
pub proof fn law_outcomes_are_told_apart(
    current: StateProjection,
    op: Seq<char>,
    inputs: Map<Seq<char>, Json>,
    next: StateProjection,
)
    requires
        follows(next, current, op, inputs),
    ensures
        current.state_type == StateType::Entitlement ==> {
            &&& op == "entitlement.grant"@ ==> stands_at(next, "granted"@)
            &&& op == "entitlement.activate"@ ==> stands_at(next, "active"@)
            &&& op == "entitlement.restore"@ ==> stands_at(next, "active"@)
            &&& op == "entitlement.suspend"@ ==> stands_at(next, "suspended"@)
            &&& op == "entitlement.expire"@ ==> stands_at(next, "expired"@)
            &&& op == "entitlement.revoke"@ ==> stands_at(next, "revoked"@)
        },
        current.state_type == StateType::Listing ==> {
            &&& op == "listing.create"@ ==> stands_at(next, "listed"@)
            &&& op == "listing.cancel"@ ==> stands_at(next, "cancelled"@)
            &&& op == "listing.buy"@ ==> stands_at(next, "sold"@)
            &&& op == "listing.expire"@ ==> stands_at(next, "expired"@)
        },
        current.state_type == StateType::Escrow ==> {
            &&& op == "escrow.lock"@ ==> stands_at(next, "locked"@)
            &&& op == "escrow.release"@ ==> stands_at(next, "released"@)
            &&& op == "escrow.refund"@ ==> stands_at(next, "refunded"@)
        },
{
    lemma_operation_names();
    lemma_field_names();
}

/// A blocking status admits the operations that lead out of it, and no others.
pub proof fn law_blocking_statuses_admit_the_ways_out(current: StateProjection, op: Seq<char>)
    ensures
        stands_at(current, "locked"@) ==> (available(current, op) <==> op == "asset.unlock"@ || op
            == "asset.restrict"@),
        stands_at(current, "escrowed"@) ==> (available(current, op) <==> op == "asset.release"@
            || op == "asset.restrict"@),
        stands_at(current, "listed"@) ==> (available(current, op) <==> op == "asset.delist"@ || op
            == "asset.redeem"@ || op == "asset.restrict"@),
        stands_at(current, "suspended"@) ==> (available(current, op) <==> op
            == "entitlement.restore"@ || op == "entitlement.expire"@),
        stands_at(current, "trade_held"@) ==> !available(current, op),
        stands_at(current, "burned"@) ==> !available(current, op),
        stands_at(current, "expired"@) ==> !available(current, op),
        stands_at(current, "tombstoned"@) ==> !available(current, op),
        stands_at(current, "revoked"@) ==> !available(current, op),
        stands_at(current, "redeemed"@) ==> !available(current, op),
        stands_at(current, "sold"@) ==> !available(current, op),
        stands_at(current, "cancelled"@) ==> !available(current, op),
        stands_at(current, "released"@) ==> !available(current, op),
        stands_at(current, "refunded"@) ==> !available(current, op),
{
    lemma_status_names();
    let locked = escapes_of("locked"@);
    let escrowed = escapes_of("escrowed"@);
    let listed = escapes_of("listed"@);
    let suspended = escapes_of("suspended"@);
    assert(locked[0] == "asset.unlock"@ && locked[1] == "asset.restrict"@);
    assert(escrowed[0] == "asset.release"@ && escrowed[1] == "asset.restrict"@);
    assert(listed[0] == "asset.delist"@ && listed[1] == "asset.redeem"@ && listed[2]
        == "asset.restrict"@);
    assert(suspended[0] == "entitlement.restore"@ && suspended[1] == "entitlement.expire"@);
}

/// A resource knows the operations of its own kind, and refuses all others.
pub proof fn law_resources_know_their_own_operations(
    current: StateProjection,
    op: Seq<char>,
    inputs: Map<Seq<char>, Json>,
)
    requires
        after_state(Some(&current), op, inputs) is Ok,
    ensures
        match current.state_type {
            StateType::UniqueAsset => op == "asset.mint"@ || op == "asset.transfer"@ || op
                == "asset.burn"@ || op == "asset.lock"@ || op == "asset.unlock"@ || op
                == "asset.list"@ || op == "asset.delist"@ || op == "asset.escrow"@ || op
                == "asset.release"@ || op == "asset.redeem"@ || op == "asset.restrict"@ || op
                == "asset.restore"@ || op == "asset.hard_delete"@ || op == "asset.attach_content"@
                || op == "asset.detach_content"@ || op == "asset.update_metadata"@ || op
                == "trade.lock"@ || op == "trade.unlock"@ || op == "trade.settle"@,
            StateType::ConsumableStack => op == "stack.create"@ || op == "stack.credit"@ || op
                == "stack.release"@ || op == "stack.debit"@ || op == "stack.consume"@ || op
                == "stack.reserve"@ || op == "stack.transfer"@ || op == "stack.adjust"@ || op
                == "stack.expire"@,
            StateType::FungibleBalance => op == "balance.create"@ || op == "balance.mint"@ || op
                == "balance.credit"@ || op == "balance.release"@ || op == "balance.debit"@ || op
                == "balance.spend"@ || op == "balance.reserve"@ || op == "balance.burn"@ || op
                == "balance.transfer"@ || op == "balance.convert"@,
            StateType::Entitlement => op == "entitlement.grant"@ || op == "entitlement.activate"@
                || op == "entitlement.restore"@ || op == "entitlement.suspend"@ || op
                == "entitlement.expire"@ || op == "entitlement.revoke"@ || op
                == "entitlement.transfer"@,
            StateType::MeteredResource => op == "meter.create"@ || op == "meter.consume"@ || op
                == "meter.refill"@ || op == "meter.set_maximum"@ || op == "meter.reset"@ || op
                == "meter.expire"@,
            StateType::Listing => op == "listing.create"@ || op == "listing.cancel"@ || op
                == "listing.buy"@ || op == "listing.expire"@,
            StateType::Escrow => op == "escrow.lock"@ || op == "escrow.release"@ || op
                == "escrow.refund"@,
        },
{
}

/// An asset with an owner takes every operation that needs no inputs; a
/// transfer needs a new owner, and a trade its id and its parties.
pub proof fn law_assets_take_their_operations(
    current: StateProjection,
    op: Seq<char>,
    inputs: Map<Seq<char>, Json>,
)
    requires
        current.state_type == StateType::UniqueAsset,
        text_under(current.state.payload@, "owner"@) is Some,
    ensures
        op == "asset.burn"@ || op == "asset.lock"@ || op == "asset.unlock"@ || op == "asset.list"@
            || op == "asset.delist"@ || op == "asset.escrow"@ || op == "asset.release"@ || op
            == "asset.redeem"@ || op == "asset.restrict"@ || op == "asset.restore"@ || op
            == "asset.hard_delete"@ || op == "asset.attach_content"@ || op
            == "asset.detach_content"@ || op == "asset.update_metadata"@ ==> after_state(
            Some(&current),
            op,
            inputs,
        ) is Ok,
        op == "asset.transfer"@ ==> (after_state(Some(&current), op, inputs) is Ok <==> text_given(
            inputs,
            "to_owner"@,
        ) is Some),
        op == "trade.lock"@ ==> (after_state(Some(&current), op, inputs) is Ok <==> text_given(
            inputs,
            "from_owner"@,
        ) is Some && text_given(inputs, "trade_id"@) is Some),
        op == "trade.unlock"@ ==> (after_state(Some(&current), op, inputs) is Ok <==> text_given(
            inputs,
            "trade_id"@,
        ) is Some),
        op == "trade.settle"@ ==> (after_state(Some(&current), op, inputs) is Ok <==> text_given(
            inputs,
            "from_owner"@,
        ) is Some && text_given(inputs, "to_owner"@) is Some && text_given(
            inputs,
            "trade_id"@,
        ) is Some),
{
    lemma_operation_names();
}

/// An entitlement with its parts, a listing with a seller and an escrow with
/// its parties take every operation of their kind; a transfer of an
/// entitlement needs a new holder.
pub proof fn law_agreements_take_their_operations(
    current: StateProjection,
    op: Seq<char>,
    inputs: Map<Seq<char>, Json>,
)
    ensures
        current.state_type == StateType::Entitlement && text_under(
            current.state.payload@,
            "subject"@,
        ) is Some && text_under(current.state.payload@, "status"@) is Some && (member(
            current.state.payload@,
            "transferable"@,
        ) == Some(Json::Bool(true)) || member(current.state.payload@, "transferable"@) == Some(
            Json::Bool(false),
        ))
            ==> {
            &&& op == "entitlement.activate"@ || op == "entitlement.restore"@ || op
                == "entitlement.suspend"@ || op == "entitlement.expire"@ || op
                == "entitlement.revoke"@ ==> after_state(Some(&current), op, inputs) is Ok
            &&& op == "entitlement.transfer"@ ==> (after_state(Some(&current), op, inputs) is Ok
                <==> text_given(inputs, "to_subject"@) is Some)
        },
        current.state_type == StateType::Listing && text_under(
            current.state.payload@,
            "seller"@,
        ) is Some && (op == "listing.cancel"@ || op == "listing.buy"@ || op == "listing.expire"@)
            ==> after_state(Some(&current), op, inputs) is Ok,
        current.state_type == StateType::Escrow && text_under(
            current.state.payload@,
            "seller"@,
        ) is Some && text_under(current.state.payload@, "buyer"@) is Some && (op
            == "escrow.release"@ || op == "escrow.refund"@) ==> after_state(
            Some(&current),
            op,
            inputs,
        ) is Ok,
{
    lemma_operation_names();
}

} // verus!
