//! What operations mean for the resources that they change.
//!
//! The after-state rules and the availability gate are written down apart from
//! each other. The laws here join them: what an accepted operation leads to,
//! what the status lets happen next, and what stays as it was.
use vstd::prelude::*;

use crate::amount::{amount_of, decimal, lemma_amount_of_decimal};
use crate::domain::state::{state_type_hint, StateProjection, StateType};
use crate::executor::conflict::{available, escapes_of};
use crate::executor::laws::{
    lemma_amount_reads_back, lemma_decimal_unmarked, lemma_field_names,
};
use crate::executor::names::{lemma_operation_names, lemma_status_names};
use crate::executor::transition::{after_state, float_marked, held_amount, input_amount_of};
use crate::json::{as_text, lookup, member, Json};

verus! {

/// The text under a field of a payload.
pub open spec fn text_under(payload: Json, field: Seq<char>) -> Option<Seq<char>> {
    as_text(member(payload, field))
}

/// The amount under a field of a payload.
pub open spec fn amount_under(payload: Json, field: Seq<char>) -> Option<u128> {
    match member(payload, field) {
        Some(Json::Str(text)) => amount_of(text),
        _ => None,
    }
}

/// The amount that an input names.
pub open spec fn amount_given(inputs: Map<Seq<char>, Json>, key: Seq<char>) -> Option<u128> {
    match lookup(inputs, key) {
        Some(Json::Str(text)) => amount_of(text),
        _ => None,
    }
}

/// The non-empty text that an input names.
pub open spec fn text_given(inputs: Map<Seq<char>, Json>, key: Seq<char>) -> Option<Seq<char>> {
    match lookup(inputs, key) {
        Some(Json::Str(text)) => if text.len() > 0 {
            Some(text)
        } else {
            None
        },
        _ => None,
    }
}

/// Whether a projection is what an accepted operation makes of another.
pub open spec fn follows(
    next: StateProjection,
    current: StateProjection,
    op: Seq<char>,
    inputs: Map<Seq<char>, Json>,
) -> bool {
    next.state_type == current.state_type && after_state(Some(&current), op, inputs) == Ok::<
        Json,
        Seq<char>,
    >(next.state.payload@)
}

// ---------------------------------------------------------------------------
// Unique assets.
// ---------------------------------------------------------------------------
/// No held asset changes hands: while an asset is in any status but an open one,
/// every operation that the status admits keeps the owner.
pub proof fn law_held_assets_keep_their_owner(
    current: StateProjection,
    op: Seq<char>,
    inputs: Map<Seq<char>, Json>,
    next: StateProjection,
)
    requires
        current.state_type == StateType::UniqueAsset,
        text_under(current.state.payload@, "status"@) is Some,
        text_under(current.state.payload@, "status"@)->0 != "active"@,
        text_under(current.state.payload@, "status"@)->0 != "granted"@,
        available(current, op),
        follows(next, current, op, inputs),
    ensures
        text_under(next.state.payload@, "owner"@) is Some,
        text_under(next.state.payload@, "owner"@) == text_under(current.state.payload@, "owner"@),
{
    lemma_field_names();
    lemma_operation_names();
    lemma_status_names();
}

/// Whether an operation puts an asset on hold, and another lifts that hold.
pub open spec fn hold_and_lift(hold: Seq<char>, lift: Seq<char>) -> bool {
    ||| hold == "asset.lock"@ && lift == "asset.unlock"@
    ||| hold == "asset.escrow"@ && lift == "asset.release"@
    ||| hold == "asset.list"@ && lift == "asset.delist"@
    ||| hold == "asset.restrict"@ && lift == "asset.restore"@
}

/// A hold is lifted by its own counterpart alone: an active asset that is
/// locked, escrowed, listed or restricted can be given back its payload exactly
/// by unlocking, releasing, delisting or restoring it. Until it is, the status
/// admits nothing else, but for a restriction of an asset that is not yet
/// restricted and the redemption of a listed one.
pub proof fn law_holds_are_lifted_by_their_counterpart(
    current: StateProjection,
    owner: Seq<char>,
    hold: Seq<char>,
    lift: Seq<char>,
    inputs: Map<Seq<char>, Json>,
    held: StateProjection,
    lift_inputs: Map<Seq<char>, Json>,
    other: Seq<char>,
)
    requires
        hold_and_lift(hold, lift),
        current.state_type == StateType::UniqueAsset,
        current.state.payload@ == Json::Object(
            Map::empty().insert("owner"@, Json::Str(owner)).insert("status"@, Json::Str("active"@)),
        ),
        !inputs.contains_key("status"@),
        follows(held, current, hold, inputs),
    ensures
        available(held, lift),
        after_state(Some(&held), lift, lift_inputs) == Ok::<Json, Seq<char>>(
            current.state.payload@,
        ),
        available(held, other) ==> {
            ||| other == lift
            ||| hold != "asset.restrict"@ && other == "asset.restrict"@
            ||| hold == "asset.list"@ && other == "asset.redeem"@
        },
{
    lemma_field_names();
    lemma_operation_names();
    lemma_status_names();
    let status = text_under(held.state.payload@, "status"@)->0;
    if hold == "asset.lock"@ {
        assert(escapes_of(status)[0] == lift);
    } else if hold == "asset.escrow"@ {
        assert(escapes_of(status)[0] == lift);
    } else if hold == "asset.list"@ {
        assert(escapes_of(status)[0] == lift);
    }
}

/// Only a mint, a transfer or a settlement names the owner of an asset: it is
/// the one that the inputs name, and the asset is open to every operation.
pub proof fn law_assets_go_to_the_named_owner(
    before: Option<StateProjection>,
    op: Seq<char>,
    inputs: Map<Seq<char>, Json>,
    next: StateProjection,
    other: Seq<char>,
)
    requires
        op == "asset.mint"@ || op == "asset.transfer"@ || op == "trade.settle"@,
        before is Some,
        before->0.state_type == StateType::UniqueAsset,
        follows(next, before->0, op, inputs),
    ensures
        text_given(inputs, "to_owner"@) is Some,
        text_under(next.state.payload@, "owner"@) == text_given(inputs, "to_owner"@),
        available(next, other),
{
    lemma_field_names();
    lemma_operation_names();
    lemma_status_names();
}

/// An asset that is locked for a trade is held for that trade: it keeps its
/// owner, records the trade, and the status admits none of the asset's own
/// operations.
pub proof fn law_trade_locks_hold_the_asset(
    current: StateProjection,
    inputs: Map<Seq<char>, Json>,
    held: StateProjection,
    other: Seq<char>,
)
    requires
        current.state_type == StateType::UniqueAsset,
        follows(held, current, "trade.lock"@, inputs),
        other != "trade.unlock"@,
        other != "trade.settle"@,
    ensures
        text_given(inputs, "trade_id"@) is Some,
        text_given(inputs, "from_owner"@) is Some,
        text_under(held.state.payload@, "trade_id"@) == text_given(inputs, "trade_id"@),
        text_under(held.state.payload@, "owner"@) == text_under(current.state.payload@, "owner"@),
        !available(held, other),
{
    lemma_field_names();
    lemma_operation_names();
    lemma_status_names();
}

/// A trade ends with the asset open to every operation and no trade recorded.
pub proof fn law_trades_end_open(
    current: StateProjection,
    op: Seq<char>,
    inputs: Map<Seq<char>, Json>,
    next: StateProjection,
    other: Seq<char>,
)
    requires
        current.state_type == StateType::UniqueAsset,
        op == "trade.unlock"@ || op == "trade.settle"@,
        follows(next, current, op, inputs),
    ensures
        text_given(inputs, "trade_id"@) is Some,
        available(next, other),
        member(next.state.payload@, "trade_id"@) is None,
{
    lemma_field_names();
    lemma_operation_names();
    lemma_status_names();
}

/// Attaching and detaching content and updating metadata leave the payload as
/// it is.
pub proof fn law_content_operations_change_nothing(
    current: StateProjection,
    op: Seq<char>,
    inputs: Map<Seq<char>, Json>,
    next: StateProjection,
)
    requires
        current.state_type == StateType::UniqueAsset,
        op == "asset.attach_content"@ || op == "asset.detach_content"@ || op
            == "asset.update_metadata"@,
        follows(next, current, op, inputs),
    ensures
        next.state.payload@ == current.state.payload@,
{
    lemma_operation_names();
}

// ---------------------------------------------------------------------------
// Ends.
// ---------------------------------------------------------------------------
/// Whether an operation ends the life of a resource of a type.
pub open spec fn ends(state_type: StateType, op: Seq<char>) -> bool {
    match state_type {
        StateType::UniqueAsset => op == "asset.burn"@ || op == "asset.redeem"@ || op
            == "asset.hard_delete"@,
        StateType::Entitlement => op == "entitlement.expire"@ || op == "entitlement.revoke"@,
        StateType::Listing => op == "listing.cancel"@ || op == "listing.buy"@ || op
            == "listing.expire"@,
        StateType::Escrow => op == "escrow.release"@ || op == "escrow.refund"@,
        _ => false,
    }
}

/// After an operation that ends a resource, the status admits nothing any more.
pub proof fn law_ended_resources_stay_ended(
    current: StateProjection,
    op: Seq<char>,
    inputs: Map<Seq<char>, Json>,
    next: StateProjection,
    other: Seq<char>,
)
    requires
        ends(current.state_type, op),
        follows(next, current, op, inputs),
    ensures
        !available(next, other),
{
    lemma_field_names();
    lemma_operation_names();
    lemma_status_names();
}

/// A resource whose status is open, or that has none, is available to every
/// operation.
pub proof fn law_open_statuses_admit_everything(current: StateProjection, op: Seq<char>)
    ensures
        member(current.state.payload@, "status"@) is None ==> available(current, op),
        text_under(current.state.payload@, "status"@) == Some("active"@) ==> available(current, op),
        text_under(current.state.payload@, "status"@) == Some("granted"@) ==> available(
            current,
            op,
        ),
{
}

/// A restriction is lifted by a restore alone.
pub proof fn law_restrictions_wait_for_a_restore(current: StateProjection, op: Seq<char>)
    requires
        ({
            let status = text_under(current.state.payload@, "status"@);
            ||| status == Some("restricted"@)
            ||| status == Some("quarantined"@)
            ||| status == Some("unsupported"@)
            ||| status == Some("legal_hold"@)
            ||| status == Some("fraud_lock"@)
            ||| status == Some("policy_restricted"@)
        }),
    ensures
        available(current, op) <==> (op == "asset.restore"@ || (current.state_type
            == StateType::Entitlement && op == "entitlement.restore"@)),
{
    lemma_status_names();
}

// ---------------------------------------------------------------------------
// Entitlements.
// ---------------------------------------------------------------------------
/// A suspended entitlement is blocked: the status admits only to restore it or to
/// let it expire. Restoring it leaves it open to every operation, and neither
/// step changes who holds it or whether it can be transferred.
pub proof fn law_suspension_blocks_until_restored(
    current: StateProjection,
    inputs: Map<Seq<char>, Json>,
    suspended: StateProjection,
    restore_inputs: Map<Seq<char>, Json>,
    restored: StateProjection,
    other: Seq<char>,
)
    requires
        current.state_type == StateType::Entitlement,
        follows(suspended, current, "entitlement.suspend"@, inputs),
        follows(restored, suspended, "entitlement.restore"@, restore_inputs),
    ensures
        available(suspended, other) <==> (other == "entitlement.restore"@ || other
            == "entitlement.expire"@),
        available(restored, other),
        member(restored.state.payload@, "subject"@) == member(current.state.payload@, "subject"@),
        member(restored.state.payload@, "transferable"@) == member(
            current.state.payload@,
            "transferable"@,
        ),
{
    lemma_field_names();
    lemma_operation_names();
    lemma_status_names();
    let status = text_under(suspended.state.payload@, "status"@)->0;
    assert(escapes_of(status)[0] == "entitlement.restore"@);
    assert(escapes_of(status)[1] == "entitlement.expire"@);
}

/// A suspended entitlement can always be restored.
pub proof fn law_suspended_entitlements_can_be_restored(
    current: StateProjection,
    inputs: Map<Seq<char>, Json>,
    suspended: StateProjection,
    restore_inputs: Map<Seq<char>, Json>,
)
    requires
        current.state_type == StateType::Entitlement,
        follows(suspended, current, "entitlement.suspend"@, inputs),
    ensures
        after_state(Some(&suspended), "entitlement.restore"@, restore_inputs) is Ok,
{
    lemma_field_names();
    lemma_operation_names();
    lemma_status_names();
}

/// Granting and activating an entitlement leave it open to every operation.
/// Only a transfer changes its holder, to the one that the inputs name, and a
/// transfer changes nothing else; no operation changes whether it can be
/// transferred.
pub proof fn law_entitlements_keep_their_holder(
    current: StateProjection,
    op: Seq<char>,
    inputs: Map<Seq<char>, Json>,
    next: StateProjection,
    other: Seq<char>,
)
    requires
        current.state_type == StateType::Entitlement,
        op != "entitlement.grant"@,
        follows(next, current, op, inputs),
    ensures
        member(next.state.payload@, "transferable"@) == member(
            current.state.payload@,
            "transferable"@,
        ),
        op == "entitlement.transfer"@ ==> text_given(inputs, "to_subject"@) is Some && text_under(
            next.state.payload@,
            "subject"@,
        ) == text_given(inputs, "to_subject"@) && member(next.state.payload@, "status"@) == member(
            current.state.payload@,
            "status"@,
        ),
        op != "entitlement.transfer"@ ==> member(next.state.payload@, "subject"@) == member(
            current.state.payload@,
            "subject"@,
        ),
        op == "entitlement.activate"@ ==> available(next, other),
{
    lemma_field_names();
    lemma_operation_names();
    lemma_status_names();
}

// ---------------------------------------------------------------------------
// Listings and escrows.
// ---------------------------------------------------------------------------
/// No operation on an existing listing or escrow changes its parties.
pub proof fn law_parties_stay(
    current: StateProjection,
    op: Seq<char>,
    inputs: Map<Seq<char>, Json>,
    next: StateProjection,
)
    requires
        current.state_type == StateType::Listing || current.state_type == StateType::Escrow,
        op != "listing.create"@,
        op != "escrow.lock"@,
        follows(next, current, op, inputs),
    ensures
        member(next.state.payload@, "seller"@) == member(current.state.payload@, "seller"@),
        current.state_type == StateType::Escrow ==> member(next.state.payload@, "buyer"@) == member(
            current.state.payload@,
            "buyer"@,
        ),
        ends(current.state_type, op),
{
    lemma_field_names();
    lemma_operation_names();
    lemma_status_names();
}

// ---------------------------------------------------------------------------
// Holdings.
// ---------------------------------------------------------------------------
/// Whether an operation adds to a stack or balance.
pub open spec fn adds(op: Seq<char>) -> bool {
    op == "stack.credit"@ || op == "stack.release"@ || op == "balance.mint"@ || op
        == "balance.credit"@ || op == "balance.release"@
}

/// Whether an operation takes from a stack or balance.
pub open spec fn takes(op: Seq<char>) -> bool {
    op == "stack.debit"@ || op == "stack.consume"@ || op == "stack.reserve"@ || op
        == "stack.transfer"@ || op == "balance.debit"@ || op == "balance.spend"@ || op
        == "balance.reserve"@ || op == "balance.burn"@ || op == "balance.transfer"@
}

/// The field in which a stack or balance records how much there is, and the
/// input that says by how much an operation changes it.
pub open spec fn measured_by(state_type: StateType, field: Seq<char>, key: Seq<char>) -> bool {
    ||| state_type == StateType::ConsumableStack && field == "quantity"@ && key == "quantity"@
    ||| state_type == StateType::FungibleBalance && field == "balance"@ && key == "amount"@
}

/// Adding to a stack or balance raises it by exactly the amount given, taking
/// lowers it by exactly that amount, and neither changes holder or unit.
pub proof fn law_holdings_move_by_the_amount_given(
    current: StateProjection,
    field: Seq<char>,
    key: Seq<char>,
    op: Seq<char>,
    inputs: Map<Seq<char>, Json>,
    next: StateProjection,
)
    requires
        measured_by(current.state_type, field, key),
        adds(op) || takes(op),
        follows(next, current, op, inputs),
    ensures
        amount_under(current.state.payload@, field) is Some,
        amount_given(inputs, key) is Some,
        amount_under(next.state.payload@, field) is Some,
        adds(op) ==> amount_under(next.state.payload@, field)->0 == amount_under(
            current.state.payload@,
            field,
        )->0 + amount_given(inputs, key)->0,
        takes(op) ==> amount_under(next.state.payload@, field)->0 == amount_under(
            current.state.payload@,
            field,
        )->0 - amount_given(inputs, key)->0,
        text_under(next.state.payload@, "subject"@) == text_under(
            current.state.payload@,
            "subject"@,
        ),
        text_under(next.state.payload@, "unit"@) == text_under(current.state.payload@, "unit"@),
{
    lemma_field_names();
    lemma_operation_names();
    let held = amount_under(current.state.payload@, field)->0;
    let given = amount_given(inputs, key)->0;
    if adds(op) {
        lemma_amount_reads_back((held + given) as u128, field);
    } else {
        lemma_amount_reads_back((held - given) as u128, field);
    }
}

/// Adding to a stack or balance that has holder, unit and amount fails only
/// where the sum would not fit, and taking only where there is too little.
pub proof fn law_holdings_move_whenever_they_can(
    current: StateProjection,
    field: Seq<char>,
    key: Seq<char>,
    op: Seq<char>,
    inputs: Map<Seq<char>, Json>,
)
    requires
        measured_by(current.state_type, field, key),
        adds(op) || takes(op),
        current.state_type == StateType::ConsumableStack <==> op[0] == 's',
        text_under(current.state.payload@, "subject"@) is Some,
        text_under(current.state.payload@, "unit"@) is Some,
        amount_under(current.state.payload@, field) is Some,
        amount_given(inputs, key) is Some,
        op == "stack.transfer"@ || op == "balance.transfer"@ ==> text_given(
            inputs,
            "to_subject"@,
        ) is Some,
    ensures
        after_state(Some(&current), op, inputs) is Ok <==> if adds(op) {
            amount_under(current.state.payload@, field)->0 + amount_given(inputs, key)->0
                <= u128::MAX
        } else {
            amount_given(inputs, key)->0 <= amount_under(current.state.payload@, field)->0
        },
{
    lemma_field_names();
    lemma_operation_names();
    lemma_texts_of_amounts(current.state.payload@, field);
    lemma_inputs_of_amounts(inputs, key);
}

/// A text that is an amount holds no mark of a float.
proof fn lemma_amount_text(text: Seq<char>)
    requires
        amount_of(text) is Some,
    ensures
        text == decimal(amount_of(text)->0 as nat),
        text.len() > 0,
        !float_marked(text),
{
    let n = choose|n: u128| decimal(n as nat) == text;
    lemma_amount_of_decimal(n);
    lemma_decimal_unmarked(n as nat);
}

proof fn lemma_texts_of_amounts(payload: Json, field: Seq<char>)
    requires
        amount_under(payload, field) is Some,
    ensures
        held_amount(payload, field) == Ok::<u128, Seq<char>>(
            amount_under(payload, field)->0,
        ),
{
    lemma_amount_text(as_text(member(payload, field))->0);
}

proof fn lemma_inputs_of_amounts(inputs: Map<Seq<char>, Json>, key: Seq<char>)
    requires
        amount_given(inputs, key) is Some,
    ensures
        input_amount_of(inputs, key) == Ok::<u128, Seq<char>>(
            amount_given(inputs, key)->0,
        ),
{
    lemma_amount_text(as_text(lookup(inputs, key))->0);
}

/// Adjusting a stack sets it to the quantity given and letting it expire
/// empties it; holder and unit stay.
pub proof fn law_stacks_are_set_and_emptied(
    current: StateProjection,
    op: Seq<char>,
    inputs: Map<Seq<char>, Json>,
    next: StateProjection,
)
    requires
        current.state_type == StateType::ConsumableStack,
        op == "stack.adjust"@ || op == "stack.expire"@,
        follows(next, current, op, inputs),
    ensures
        op == "stack.adjust"@ ==> amount_given(inputs, "quantity"@) is Some && amount_under(
            next.state.payload@,
            "quantity"@,
        ) == amount_given(inputs, "quantity"@),
        op == "stack.expire"@ ==> amount_under(next.state.payload@, "quantity"@) == Some(0u128),
        text_under(next.state.payload@, "subject"@) == text_under(
            current.state.payload@,
            "subject"@,
        ),
        text_under(next.state.payload@, "unit"@) == text_under(current.state.payload@, "unit"@),
{
    lemma_field_names();
    lemma_operation_names();
    lemma_amount_reads_back(0, "quantity"@);
    if op == "stack.adjust"@ {
        lemma_amount_reads_back(amount_given(inputs, "quantity"@)->0, "quantity"@);
    }
}

/// Converting takes the amount given from a balance and counts what is left in
/// the unit that the inputs name.
pub proof fn law_conversion_takes_and_renames(
    current: StateProjection,
    inputs: Map<Seq<char>, Json>,
    next: StateProjection,
)
    requires
        current.state_type == StateType::FungibleBalance,
        follows(next, current, "balance.convert"@, inputs),
    ensures
        amount_under(current.state.payload@, "balance"@) is Some,
        amount_given(inputs, "amount"@) is Some,
        amount_under(next.state.payload@, "balance"@) is Some,
        amount_under(next.state.payload@, "balance"@)->0 == amount_under(
            current.state.payload@,
            "balance"@,
        )->0 - amount_given(inputs, "amount"@)->0,
        text_given(inputs, "to_unit"@) is Some,
        text_under(next.state.payload@, "unit"@) == text_given(inputs, "to_unit"@),
        text_under(next.state.payload@, "subject"@) == text_under(
            current.state.payload@,
            "subject"@,
        ),
{
    lemma_field_names();
    lemma_operation_names();
    let held = amount_under(current.state.payload@, "balance"@)->0;
    let given = amount_given(inputs, "amount"@)->0;
    lemma_amount_reads_back((held - given) as u128, "balance"@);
}

// ---------------------------------------------------------------------------
// Beginnings.
// ---------------------------------------------------------------------------
/// Resources come into being with what the inputs name: a mint with an owner,
/// a stack, balance, entitlement or meter with a holder and its amounts, a
/// listing with a seller, an escrow with its two parties.
pub proof fn law_resources_begin_as_given(
    op: Seq<char>,
    inputs: Map<Seq<char>, Json>,
    payload: Json,
)
    requires
        after_state(None, op, inputs) == Ok::<Json, Seq<char>>(payload),
    ensures
        op == "asset.mint"@ ==> text_given(inputs, "to_owner"@) is Some && text_under(
            payload,
            "owner"@,
        ) == text_given(inputs, "to_owner"@),
        op == "stack.create"@ || op == "balance.create"@ || op == "entitlement.grant"@ || op
            == "meter.create"@ ==> text_given(inputs, "subject"@) is Some && text_under(
            payload,
            "subject"@,
        ) == text_given(inputs, "subject"@),
        op == "stack.create"@ || op == "balance.create"@ ==> text_given(inputs, "unit"@) is Some
            && text_under(payload, "unit"@) == text_given(inputs, "unit"@),
        op == "stack.create"@ ==> amount_given(inputs, "quantity"@) is Some && amount_under(
            payload,
            "quantity"@,
        ) == amount_given(inputs, "quantity"@),
        op == "balance.create"@ ==> amount_given(inputs, "balance"@) is Some && amount_under(
            payload,
            "balance"@,
        ) == amount_given(inputs, "balance"@),
        op == "meter.create"@ ==> amount_given(inputs, "remaining"@) is Some && amount_given(
            inputs,
            "maximum"@,
        ) is Some && amount_under(payload, "remaining"@) == amount_given(inputs, "remaining"@)
            && amount_under(payload, "maximum"@) == amount_given(inputs, "maximum"@),
        op == "entitlement.grant"@ ==> (member(payload, "transferable"@) == Some(Json::Bool(true))
            <==> lookup(inputs, "transferable"@) == Some(Json::Bool(true))),
        op == "listing.create"@ || op == "escrow.lock"@ ==> text_given(inputs, "seller"@) is Some
            && text_under(payload, "seller"@) == text_given(inputs, "seller"@),
        op == "escrow.lock"@ ==> text_given(inputs, "buyer"@) is Some && text_under(
            payload,
            "buyer"@,
        ) == text_given(inputs, "buyer"@),
{
    lemma_field_names();
    lemma_operation_names();
    lemma_operation_prefixes(op);
    if let Some(n) = amount_given(inputs, "quantity"@) {
        lemma_amount_reads_back(n, "quantity"@);
    }
    if let Some(n) = amount_given(inputs, "balance"@) {
        lemma_amount_reads_back(n, "balance"@);
    }
    if let Some(n) = amount_given(inputs, "remaining"@) {
        lemma_amount_reads_back(n, "remaining"@);
    }
    if let Some(n) = amount_given(inputs, "maximum"@) {
        lemma_amount_reads_back(n, "maximum"@);
    }
}

/// What is needed to bring a resource into being is enough: with the inputs
/// that it is made of, each kind of resource can be created from nothing.
pub proof fn law_resources_can_begin(inputs: Map<Seq<char>, Json>)
    ensures
        text_given(inputs, "to_owner"@) is Some ==> after_state(None, "asset.mint"@, inputs) is Ok,
        text_given(inputs, "subject"@) is Some && text_given(inputs, "unit"@) is Some
            && amount_given(inputs, "quantity"@) is Some ==> after_state(
            None,
            "stack.create"@,
            inputs,
        ) is Ok,
        text_given(inputs, "subject"@) is Some && text_given(inputs, "unit"@) is Some
            && amount_given(inputs, "balance"@) is Some ==> after_state(
            None,
            "balance.create"@,
            inputs,
        ) is Ok,
        text_given(inputs, "subject"@) is Some ==> after_state(
            None,
            "entitlement.grant"@,
            inputs,
        ) is Ok,
        text_given(inputs, "subject"@) is Some && amount_given(inputs, "remaining"@) is Some
            && amount_given(inputs, "maximum"@) is Some ==> after_state(
            None,
            "meter.create"@,
            inputs,
        ) is Ok,
        text_given(inputs, "seller"@) is Some ==> after_state(
            None,
            "listing.create"@,
            inputs,
        ) is Ok,
        text_given(inputs, "seller"@) is Some && text_given(inputs, "buyer"@) is Some
            ==> after_state(None, "escrow.lock"@, inputs) is Ok,
{
    lemma_operation_names();
    lemma_operation_prefixes("asset.mint"@);
    lemma_operation_prefixes("stack.create"@);
    lemma_operation_prefixes("balance.create"@);
    lemma_operation_prefixes("entitlement.grant"@);
    lemma_operation_prefixes("meter.create"@);
    lemma_operation_prefixes("listing.create"@);
    lemma_operation_prefixes("escrow.lock"@);
    if amount_given(inputs, "quantity"@) is Some {
        lemma_inputs_of_amounts(inputs, "quantity"@);
    }
    if amount_given(inputs, "balance"@) is Some {
        lemma_inputs_of_amounts(inputs, "balance"@);
    }
    if amount_given(inputs, "remaining"@) is Some {
        lemma_inputs_of_amounts(inputs, "remaining"@);
    }
    if amount_given(inputs, "maximum"@) is Some {
        lemma_inputs_of_amounts(inputs, "maximum"@);
    }
}

/// The prefixes of the creating operations name their state types.
proof fn lemma_operation_prefixes(op: Seq<char>)
    ensures
        op == "asset.mint"@ ==> state_type_hint(op) == Some(StateType::UniqueAsset),
        op == "stack.create"@ ==> state_type_hint(op) == Some(StateType::ConsumableStack),
        op == "balance.create"@ ==> state_type_hint(op) == Some(StateType::FungibleBalance),
        op == "entitlement.grant"@ ==> state_type_hint(op) == Some(StateType::Entitlement),
        op == "meter.create"@ ==> state_type_hint(op) == Some(StateType::MeteredResource),
        op == "listing.create"@ ==> state_type_hint(op) == Some(StateType::Listing),
        op == "escrow.lock"@ ==> state_type_hint(op) == Some(StateType::Escrow),
{
    reveal_strlit("asset.");
    reveal_strlit("stack.");
    reveal_strlit("balance.");
    reveal_strlit("entitlement.");
    reveal_strlit("meter.");
    reveal_strlit("listing.");
    reveal_strlit("escrow.");
    reveal_strlit("asset.mint");
    reveal_strlit("stack.create");
    reveal_strlit("balance.create");
    reveal_strlit("entitlement.grant");
    reveal_strlit("meter.create");
    reveal_strlit("listing.create");
    reveal_strlit("escrow.lock");
    assert("asset.mint"@.take(6) =~= "asset."@);
    assert("stack.create"@.take(6) =~= "stack."@);
    assert("balance.create"@.take(8) =~= "balance."@);
    assert("entitlement.grant"@.take(12) =~= "entitlement."@);
    assert("meter.create"@.take(6) =~= "meter."@);
    assert("listing.create"@.take(8) =~= "listing."@);
    assert("escrow.lock"@.take(7) =~= "escrow."@);
    assert(op.len() >= 6 ==> op.take(6)[0] == op[0]);
    assert(op.len() >= 8 ==> op.take(8)[0] == op[0]);
    assert(op.len() >= 12 ==> op.take(12)[0] == op[0]);
    assert(op.len() >= 12 ==> op.take(12)[1] == op[1]);
    assert(op.len() >= 7 ==> op.take(7)[0] == op[0]);
}

} // verus!
