//! Deterministic after-state rules.
//!
//! For each state type, [`apply`] computes the one after-state payload of a
//! transition, or says why there is none. Unknown operations, missing or
//! malformed inputs, malformed payloads, overflow and underflow all fail
//! closed. Amounts are exact integers in canonical text form; versions are the
//! pipeline's concern.
use vstd::prelude::*;

use crate::amount::{amount_of, decimal, Amount};
use crate::domain::ids::{Operation, ResourceId, SubjectId, TenantId};
use crate::domain::state::{state_type_hint, StateProjection, StateType};
use crate::executor::error::ExecutorError;
use crate::json::{as_flag, as_text, lookup, member, Fields, Json, Value};
use crate::text::{chars_of, join3};

verus! {

// ---------------------------------------------------------------------------
// What inputs and payloads say.
// ---------------------------------------------------------------------------
/// A required, non-empty text input, or the complaint about it.
pub open spec fn input_text(inputs: Map<Seq<char>, Json>, key: Seq<char>) -> Result<
    Seq<char>,
    Seq<char>,
> {
    match lookup(inputs, key) {
        None => Err("missing input `"@ + key + "`"@),
        Some(Json::Str(text)) => if text.len() == 0 {
            Err("input `"@ + key + "` must not be empty"@)
        } else {
            Ok(text)
        },
        Some(_) => Err("input `"@ + key + "` must be a string"@),
    }
}

/// Whether a text holds a decimal point or an exponent mark.
pub open spec fn float_marked(text: Seq<char>) -> bool {
    exists|i: int|
        0 <= i < text.len() && (#[trigger] text[i] == '.' || text[i] == 'e' || text[i] == 'E')
}

/// The amount that a document denotes, or the complaint about it.
pub open spec fn amount_in(value: Json, key: Seq<char>) -> Result<u128, Seq<char>> {
    match value {
        Json::Str(text) => if text.len() > 0 && float_marked(text) {
            Err("`"@ + key + "` must be an integer string (floats are forbidden)"@)
        } else {
            match amount_of(text) {
                Some(n) => Ok(n),
                None => Err("`"@ + key + "` must be an integer string"@),
            }
        },
        _ => Err("`"@ + key + "` must be an integer string"@),
    }
}

/// A required amount input, or the complaint about it.
pub open spec fn input_amount_of(inputs: Map<Seq<char>, Json>, key: Seq<char>) -> Result<
    u128,
    Seq<char>,
> {
    match lookup(inputs, key) {
        None => Err("missing input `"@ + key + "`"@),
        Some(value) => amount_in(value, key),
    }
}

/// A text in a state payload, or the complaint about it.
pub open spec fn held_text(state: Json, key: Seq<char>) -> Result<Seq<char>, Seq<char>> {
    match member(state, key) {
        None => Err("state payload has no `"@ + key + "`"@),
        Some(Json::Str(text)) => Ok(text),
        Some(_) => Err("`"@ + key + "` must be a string"@),
    }
}

/// An amount in a state payload, or the complaint about it.
pub open spec fn held_amount(state: Json, key: Seq<char>) -> Result<u128, Seq<char>> {
    match member(state, key) {
        None => Err("state payload has no `"@ + key + "`"@),
        Some(value) => amount_in(value, key),
    }
}

/// A boolean in a state payload, or the complaint about it.
pub open spec fn held_flag(state: Json, key: Seq<char>) -> Result<bool, Seq<char>> {
    match member(state, key) {
        None => Err("state payload has no `"@ + key + "`"@),
        Some(Json::Bool(flag)) => Ok(flag),
        Some(_) => Err("`"@ + key + "` must be a boolean"@),
    }
}

/// The complaint about an operation on a resource that does not exist.
pub open spec fn needs_resource(op: Seq<char>) -> Seq<char> {
    "operation `"@ + op + "` requires an existing resource"@
}

/// A sum of amounts, or the complaint about its size.
pub open spec fn raised(held: u128, by: u128, label: Seq<char>) -> Result<u128, Seq<char>> {
    if held + by <= u128::MAX {
        Ok((held + by) as u128)
    } else {
        Err("`"@ + label + "` overflow"@)
    }
}

/// A difference of amounts, or the complaint that there is too little.
pub open spec fn lowered(held: u128, by: u128, label: Seq<char>) -> Result<u128, Seq<char>> {
    if by <= held {
        Ok((held - by) as u128)
    } else {
        Err("`"@ + label + "` underflow"@)
    }
}

// ---------------------------------------------------------------------------
// Payload shapes.
// ---------------------------------------------------------------------------
/// A payload with an owner and a status.
pub open spec fn owned(owner: Seq<char>, status: Seq<char>) -> Json {
    Json::Object(
        Map::empty().insert("owner"@, Json::Str(owner)).insert("status"@, Json::Str(status)),
    )
}

/// The payload of an asset that a trade holds.
pub open spec fn trade_held(owner: Seq<char>, trade_id: Seq<char>) -> Json {
    Json::Object(
        Map::empty().insert("owner"@, Json::Str(owner)).insert(
            "status"@,
            Json::Str("trade_held"@),
        ).insert("trade_id"@, Json::Str(trade_id)),
    )
}

/// A payload with a subject, an amount under the given field, and a unit.
pub open spec fn holding(
    subject: Seq<char>,
    field: Seq<char>,
    amount: u128,
    unit: Seq<char>,
) -> Json {
    Json::Object(
        Map::empty().insert("subject"@, Json::Str(subject)).insert(
            field,
            Json::Str(decimal(amount as nat)),
        ).insert("unit"@, Json::Str(unit)),
    )
}

/// The payload of an entitlement.
pub open spec fn entitlement(subject: Seq<char>, status: Seq<char>, transferable: bool) -> Json {
    Json::Object(
        Map::empty().insert("subject"@, Json::Str(subject)).insert(
            "status"@,
            Json::Str(status),
        ).insert("transferable"@, Json::Bool(transferable)),
    )
}

/// The payload of a meter.
pub open spec fn metered(subject: Seq<char>, remaining: u128, maximum: u128) -> Json {
    Json::Object(
        Map::empty().insert("subject"@, Json::Str(subject)).insert(
            "remaining"@,
            Json::Str(decimal(remaining as nat)),
        ).insert("maximum"@, Json::Str(decimal(maximum as nat))),
    )
}

/// The payload of a listing.
pub open spec fn listed(seller: Seq<char>, status: Seq<char>) -> Json {
    Json::Object(
        Map::empty().insert("seller"@, Json::Str(seller)).insert("status"@, Json::Str(status)),
    )
}

/// The payload of an escrow.
pub open spec fn escrowed(buyer: Seq<char>, seller: Seq<char>, status: Seq<char>) -> Json {
    Json::Object(
        Map::empty().insert("buyer"@, Json::Str(buyer)).insert("seller"@, Json::Str(seller)).insert(
            "status"@,
            Json::Str(status),
        ),
    )
}

// ---------------------------------------------------------------------------
// After-states.
// ---------------------------------------------------------------------------
/// The status that an operation on a unique asset leads to, for operations
/// that keep the owner.
pub open spec fn asset_status_after(op: Seq<char>, inputs: Map<Seq<char>, Json>) -> Option<
    Seq<char>,
> {
    if op == "asset.burn"@ {
        Some("burned"@)
    } else if op == "asset.lock"@ {
        Some("locked"@)
    } else if op == "asset.unlock"@ || op == "asset.delist"@ || op == "asset.release"@ || op
        == "asset.restore"@ {
        Some("active"@)
    } else if op == "asset.list"@ {
        Some("listed"@)
    } else if op == "asset.escrow"@ {
        Some("escrowed"@)
    } else if op == "asset.redeem"@ {
        Some("redeemed"@)
    } else if op == "asset.restrict"@ {
        match as_text(lookup(inputs, "status"@)) {
            Some(status) => Some(status),
            None => Some("restricted"@),
        }
    } else if op == "asset.hard_delete"@ {
        Some("tombstoned"@)
    } else {
        None
    }
}

/// The after-state of a unique asset.
pub open spec fn asset_after(
    before: Option<Json>,
    op: Seq<char>,
    inputs: Map<Seq<char>, Json>,
) -> Result<Json, Seq<char>> {
    let owner = match before {
        Some(state) => held_text(state, "owner"@),
        None => Ok(Seq::empty()),
    };
    match owner {
        Err(e) => Err(e),
        Ok(owner) => if op == "asset.mint"@ || op == "asset.transfer"@ {
            match input_text(inputs, "to_owner"@) {
                Err(e) => Err(e),
                Ok(to_owner) => Ok(owned(to_owner, "active"@)),
            }
        } else if asset_status_after(op, inputs) is Some {
            Ok(owned(owner, asset_status_after(op, inputs)->0))
        } else if op == "trade.lock"@ || op == "trade.unlock"@ || op == "trade.settle"@ {
            if before is None {
                Err(needs_resource(op))
            } else {
                trade_after(owner, op, inputs)
            }
        } else if op == "asset.attach_content"@ || op == "asset.detach_content"@ || op
            == "asset.update_metadata"@ {
            match before {
                Some(state) => Ok(state),
                None => Err("operation requires an existing resource"@),
            }
        } else {
            Err("unknown unique asset operation `"@ + op + "`"@)
        },
    }
}

/// The after-state of an existing unique asset under a trade operation.
pub open spec fn trade_after(owner: Seq<char>, op: Seq<char>, inputs: Map<Seq<char>, Json>) -> Result<
    Json,
    Seq<char>,
> {
    if op == "trade.lock"@ {
        match input_text(inputs, "from_owner"@) {
            Err(e) => Err(e),
            Ok(_) => match input_text(inputs, "trade_id"@) {
                Err(e) => Err(e),
                Ok(trade_id) => Ok(trade_held(owner, trade_id)),
            },
        }
    } else if op == "trade.unlock"@ {
        match input_text(inputs, "trade_id"@) {
            Err(e) => Err(e),
            Ok(_) => Ok(owned(owner, "active"@)),
        }
    } else {
        match input_text(inputs, "from_owner"@) {
            Err(e) => Err(e),
            Ok(_) => match input_text(inputs, "to_owner"@) {
                Err(e) => Err(e),
                Ok(to_owner) => match input_text(inputs, "trade_id"@) {
                    Err(e) => Err(e),
                    Ok(_) => Ok(owned(to_owner, "active"@)),
                },
            },
        }
    }
}

/// A new holding, all from inputs.
pub open spec fn holding_created(inputs: Map<Seq<char>, Json>, field: Seq<char>) -> Result<
    Json,
    Seq<char>,
> {
    match input_text(inputs, "subject"@) {
        Err(e) => Err(e),
        Ok(subject) => match input_text(inputs, "unit"@) {
            Err(e) => Err(e),
            Ok(unit) => match input_amount_of(inputs, field) {
                Err(e) => Err(e),
                Ok(amount) => Ok(holding(subject, field, amount, unit)),
            },
        },
    }
}

/// An existing holding with an input amount added or taken away.
pub open spec fn holding_moved(
    before: Option<Json>,
    op: Seq<char>,
    inputs: Map<Seq<char>, Json>,
    field: Seq<char>,
    amount_key: Seq<char>,
    label: Seq<char>,
    up: bool,
) -> Result<Json, Seq<char>> {
    match before {
        None => Err(needs_resource(op)),
        Some(state) => match held_text(state, "subject"@) {
            Err(e) => Err(e),
            Ok(subject) => match held_text(state, "unit"@) {
                Err(e) => Err(e),
                Ok(unit) => match held_amount(state, field) {
                    Err(e) => Err(e),
                    Ok(held) => match input_amount_of(inputs, amount_key) {
                        Err(e) => Err(e),
                        Ok(amount) => {
                            let next = if up {
                                raised(held, amount, label)
                            } else {
                                lowered(held, amount, label)
                            };
                            match next {
                                Err(e) => Err(e),
                                Ok(next) => Ok(holding(subject, field, next, unit)),
                            }
                        },
                    },
                },
            },
        },
    }
}

/// The source side of a transfer: the holding less the amount, provided that
/// the inputs name a destination.
pub open spec fn holding_sent(
    before: Option<Json>,
    op: Seq<char>,
    inputs: Map<Seq<char>, Json>,
    field: Seq<char>,
    amount_key: Seq<char>,
    label: Seq<char>,
) -> Result<Json, Seq<char>> {
    if before is None {
        Err(needs_resource(op))
    } else {
        match input_text(inputs, "to_subject"@) {
            Err(e) => Err(e),
            Ok(_) => holding_moved(before, op, inputs, field, amount_key, label, false),
        }
    }
}

/// The destination side of a transfer: what is there, if anything, plus the
/// amount, in the source's unit and under the named subject.
pub open spec fn holding_received(
    source: Json,
    destination: Option<Json>,
    inputs: Map<Seq<char>, Json>,
    field: Seq<char>,
    amount_key: Seq<char>,
    label: Seq<char>,
) -> Result<Json, Seq<char>> {
    match input_text(inputs, "to_subject"@) {
        Err(e) => Err(e),
        Ok(subject) => match held_text(source, "unit"@) {
            Err(e) => Err(e),
            Ok(unit) => match input_amount_of(inputs, amount_key) {
                Err(e) => Err(e),
                Ok(amount) => {
                    let existing = match destination {
                        Some(state) => held_amount(state, field),
                        None => Ok(0u128),
                    };
                    match existing {
                        Err(e) => Err(e),
                        Ok(existing) => match raised(existing, amount, label) {
                            Err(e) => Err(e),
                            Ok(next) => Ok(holding(subject, field, next, unit)),
                        },
                    }
                },
            },
        },
    }
}

/// The after-state of a consumable stack.
pub open spec fn stack_after(
    before: Option<Json>,
    op: Seq<char>,
    inputs: Map<Seq<char>, Json>,
) -> Result<Json, Seq<char>> {
    if op == "stack.create"@ {
        holding_created(inputs, "quantity"@)
    } else if op == "stack.credit"@ || op == "stack.release"@ {
        holding_moved(before, op, inputs, "quantity"@, "quantity"@, "stack quantity"@, true)
    } else if op == "stack.debit"@ || op == "stack.consume"@ || op == "stack.reserve"@ {
        holding_moved(before, op, inputs, "quantity"@, "quantity"@, "stack quantity"@, false)
    } else if op == "stack.transfer"@ {
        holding_sent(before, op, inputs, "quantity"@, "quantity"@, "stack quantity"@)
    } else if op == "stack.adjust"@ || op == "stack.expire"@ {
        match before {
            None => Err(needs_resource(op)),
            Some(state) => match held_text(state, "subject"@) {
                Err(e) => Err(e),
                Ok(subject) => match held_text(state, "unit"@) {
                    Err(e) => Err(e),
                    Ok(unit) => if op == "stack.adjust"@ {
                        match input_amount_of(inputs, "quantity"@) {
                            Err(e) => Err(e),
                            Ok(quantity) => Ok(holding(subject, "quantity"@, quantity, unit)),
                        }
                    } else {
                        Ok(holding(subject, "quantity"@, 0, unit))
                    },
                },
            },
        }
    } else {
        Err("unknown consumable stack operation `"@ + op + "`"@)
    }
}

/// The after-state of a fungible balance.
pub open spec fn balance_after(
    before: Option<Json>,
    op: Seq<char>,
    inputs: Map<Seq<char>, Json>,
) -> Result<Json, Seq<char>> {
    if op == "balance.create"@ {
        holding_created(inputs, "balance"@)
    } else if op == "balance.mint"@ || op == "balance.credit"@ || op == "balance.release"@ {
        holding_moved(before, op, inputs, "balance"@, "amount"@, "balance"@, true)
    } else if op == "balance.debit"@ || op == "balance.spend"@ || op == "balance.reserve"@ || op
        == "balance.burn"@ {
        holding_moved(before, op, inputs, "balance"@, "amount"@, "balance"@, false)
    } else if op == "balance.transfer"@ {
        holding_sent(before, op, inputs, "balance"@, "amount"@, "balance"@)
    } else if op == "balance.convert"@ {
        match before {
            None => Err(needs_resource(op)),
            Some(state) => match held_text(state, "subject"@) {
                Err(e) => Err(e),
                Ok(subject) => match input_text(inputs, "to_unit"@) {
                    Err(e) => Err(e),
                    Ok(to_unit) => match held_amount(state, "balance"@) {
                        Err(e) => Err(e),
                        Ok(held) => match input_amount_of(inputs, "amount"@) {
                            Err(e) => Err(e),
                            Ok(amount) => match lowered(held, amount, "balance"@) {
                                Err(e) => Err(e),
                                Ok(next) => Ok(holding(subject, "balance"@, next, to_unit)),
                            },
                        },
                    },
                },
            },
        }
    } else {
        Err("unknown fungible balance operation `"@ + op + "`"@)
    }
}

/// The status that an operation on an existing entitlement leads to.
pub open spec fn entitlement_status_after(op: Seq<char>) -> Option<Seq<char>> {
    if op == "entitlement.activate"@ || op == "entitlement.restore"@ {
        Some("active"@)
    } else if op == "entitlement.suspend"@ {
        Some("suspended"@)
    } else if op == "entitlement.expire"@ {
        Some("expired"@)
    } else if op == "entitlement.revoke"@ {
        Some("revoked"@)
    } else {
        None
    }
}

/// The after-state of an entitlement.
pub open spec fn entitlement_after(
    before: Option<Json>,
    op: Seq<char>,
    inputs: Map<Seq<char>, Json>,
) -> Result<Json, Seq<char>> {
    if op == "entitlement.grant"@ {
        match input_text(inputs, "subject"@) {
            Err(e) => Err(e),
            Ok(subject) => Ok(
                entitlement(
                    subject,
                    "granted"@,
                    as_flag(lookup(inputs, "transferable"@)) == Some(true),
                ),
            ),
        }
    } else if entitlement_status_after(op) is Some {
        match before {
            None => Err(needs_resource(op)),
            Some(state) => match held_text(state, "subject"@) {
                Err(e) => Err(e),
                Ok(subject) => match held_flag(state, "transferable"@) {
                    Err(e) => Err(e),
                    Ok(transferable) => Ok(
                        entitlement(subject, entitlement_status_after(op)->0, transferable),
                    ),
                },
            },
        }
    } else if op == "entitlement.transfer"@ {
        match before {
            None => Err(needs_resource(op)),
            Some(state) => match input_text(inputs, "to_subject"@) {
                Err(e) => Err(e),
                Ok(to_subject) => match held_text(state, "status"@) {
                    Err(e) => Err(e),
                    Ok(status) => match held_flag(state, "transferable"@) {
                        Err(e) => Err(e),
                        Ok(transferable) => Ok(entitlement(to_subject, status, transferable)),
                    },
                },
            },
        }
    } else {
        Err("unknown entitlement operation `"@ + op + "`"@)
    }
}

/// The after-state of a meter.
pub open spec fn meter_after(
    before: Option<Json>,
    op: Seq<char>,
    inputs: Map<Seq<char>, Json>,
) -> Result<Json, Seq<char>> {
    if op == "meter.create"@ {
        match input_text(inputs, "subject"@) {
            Err(e) => Err(e),
            Ok(subject) => match input_amount_of(inputs, "remaining"@) {
                Err(e) => Err(e),
                Ok(remaining) => match input_amount_of(inputs, "maximum"@) {
                    Err(e) => Err(e),
                    Ok(maximum) => Ok(metered(subject, remaining, maximum)),
                },
            },
        }
    } else if op == "meter.consume"@ || op == "meter.refill"@ || op == "meter.set_maximum"@ || op
        == "meter.reset"@ || op == "meter.expire"@ {
        match before {
            None => Err(needs_resource(op)),
            Some(state) => match held_text(state, "subject"@) {
                Err(e) => Err(e),
                Ok(subject) => existing_meter_after(state, subject, op, inputs),
            },
        }
    } else {
        Err("unknown meter operation `"@ + op + "`"@)
    }
}

/// The after-state of an existing meter.
pub open spec fn existing_meter_after(
    state: Json,
    subject: Seq<char>,
    op: Seq<char>,
    inputs: Map<Seq<char>, Json>,
) -> Result<Json, Seq<char>> {
    if op == "meter.set_maximum"@ {
        match held_amount(state, "remaining"@) {
            Err(e) => Err(e),
            Ok(remaining) => match input_amount_of(inputs, "maximum"@) {
                Err(e) => Err(e),
                Ok(maximum) => Ok(
                    metered(
                        subject,
                        if remaining <= maximum {
                            remaining
                        } else {
                            maximum
                        },
                        maximum,
                    ),
                ),
            },
        }
    } else {
        match held_amount(state, "maximum"@) {
            Err(e) => Err(e),
            Ok(maximum) => if op == "meter.consume"@ {
                match held_amount(state, "remaining"@) {
                    Err(e) => Err(e),
                    Ok(remaining) => match input_amount_of(inputs, "amount"@) {
                        Err(e) => Err(e),
                        Ok(amount) => match lowered(remaining, amount, "meter remaining"@) {
                            Err(e) => Err(e),
                            Ok(next) => Ok(metered(subject, next, maximum)),
                        },
                    },
                }
            } else if op == "meter.refill"@ {
                Ok(metered(subject, maximum, maximum))
            } else {
                Ok(metered(subject, 0, maximum))
            },
        }
    }
}

/// The status that an operation on an existing listing leads to.
pub open spec fn listing_status_after(op: Seq<char>) -> Option<Seq<char>> {
    if op == "listing.cancel"@ {
        Some("cancelled"@)
    } else if op == "listing.buy"@ {
        Some("sold"@)
    } else if op == "listing.expire"@ {
        Some("expired"@)
    } else {
        None
    }
}

/// The after-state of a listing.
pub open spec fn listing_after(
    before: Option<Json>,
    op: Seq<char>,
    inputs: Map<Seq<char>, Json>,
) -> Result<Json, Seq<char>> {
    if op == "listing.create"@ {
        match input_text(inputs, "seller"@) {
            Err(e) => Err(e),
            Ok(seller) => Ok(listed(seller, "listed"@)),
        }
    } else if listing_status_after(op) is Some {
        match before {
            None => Err(needs_resource(op)),
            Some(state) => match held_text(state, "seller"@) {
                Err(e) => Err(e),
                Ok(seller) => Ok(listed(seller, listing_status_after(op)->0)),
            },
        }
    } else {
        Err("unknown listing operation `"@ + op + "`"@)
    }
}

/// The status that an operation on an existing escrow leads to.
pub open spec fn escrow_status_after(op: Seq<char>) -> Option<Seq<char>> {
    if op == "escrow.release"@ {
        Some("released"@)
    } else if op == "escrow.refund"@ {
        Some("refunded"@)
    } else {
        None
    }
}

/// The after-state of an escrow.
pub open spec fn escrow_after(
    before: Option<Json>,
    op: Seq<char>,
    inputs: Map<Seq<char>, Json>,
) -> Result<Json, Seq<char>> {
    if op == "escrow.lock"@ {
        match input_text(inputs, "buyer"@) {
            Err(e) => Err(e),
            Ok(buyer) => match input_text(inputs, "seller"@) {
                Err(e) => Err(e),
                Ok(seller) => Ok(escrowed(buyer, seller, "locked"@)),
            },
        }
    } else if escrow_status_after(op) is Some {
        match before {
            None => Err(needs_resource(op)),
            Some(state) => match held_text(state, "buyer"@) {
                Err(e) => Err(e),
                Ok(buyer) => match held_text(state, "seller"@) {
                    Err(e) => Err(e),
                    Ok(seller) => Ok(escrowed(buyer, seller, escrow_status_after(op)->0)),
                },
            },
        }
    } else {
        Err("unknown escrow operation `"@ + op + "`"@)
    }
}

/// The after-state of a resource of a known type.
pub open spec fn after_of(
    state_type: StateType,
    before: Option<Json>,
    op: Seq<char>,
    inputs: Map<Seq<char>, Json>,
) -> Result<Json, Seq<char>> {
    match state_type {
        StateType::UniqueAsset => asset_after(before, op, inputs),
        StateType::ConsumableStack => stack_after(before, op, inputs),
        StateType::FungibleBalance => balance_after(before, op, inputs),
        StateType::Entitlement => entitlement_after(before, op, inputs),
        StateType::MeteredResource => meter_after(before, op, inputs),
        StateType::Listing => listing_after(before, op, inputs),
        StateType::Escrow => escrow_after(before, op, inputs),
    }
}

/// The payload of an optional projection.
pub open spec fn payload_of(before: Option<&StateProjection>) -> Option<Json> {
    match before {
        Some(projection) => Some(projection.state.payload@),
        None => None,
    }
}

/// The type that a transition works on: the projection's own, or the one that
/// the operation name implies.
pub open spec fn type_for(before: Option<&StateProjection>, op: Seq<char>) -> Option<StateType> {
    match before {
        Some(projection) => Some(projection.state_type),
        None => state_type_hint(op),
    }
}

/// The after-state of a transition.
pub open spec fn after_state(
    before: Option<&StateProjection>,
    op: Seq<char>,
    inputs: Map<Seq<char>, Json>,
) -> Result<Json, Seq<char>> {
    match type_for(before, op) {
        None => Err("cannot determine state type for operation `"@ + op + "`"@),
        Some(state_type) => after_of(state_type, payload_of(before), op, inputs),
    }
}

/// The credited payload of a transfer's destination.
pub open spec fn credited_state(
    source: Json,
    destination: Option<Json>,
    op: Seq<char>,
    inputs: Map<Seq<char>, Json>,
) -> Result<Json, Seq<char>> {
    if op == "stack.transfer"@ {
        holding_received(
            source,
            destination,
            inputs,
            "quantity"@,
            "quantity"@,
            "stack quantity"@,
        )
    } else if op == "balance.transfer"@ {
        holding_received(source, destination, inputs, "balance"@, "amount"@, "balance"@)
    } else {
        Err("destination credit not defined for operation `"@ + op + "`"@)
    }
}

/// Whether a result is the refusal of a transition with the given complaint.
pub open spec fn refused<T>(r: Result<T, ExecutorError>, complaint: Seq<char>) -> bool {
    match r {
        Err(ExecutorError::TransitionInvalid(message)) => message@ == complaint,
        _ => false,
    }
}

/// Whether a computed payload is the specified one, or the specified refusal.
pub open spec fn yields(
    r: Result<Value, ExecutorError>,
    specified: Result<Json, Seq<char>>,
) -> bool {
    match specified {
        Ok(payload) => r is Ok && r->Ok_0@ == payload,
        Err(complaint) => refused(r, complaint),
    }
}

// ---------------------------------------------------------------------------
// Reading inputs and payloads.
// ---------------------------------------------------------------------------
fn invalid<T>(message: String) -> (r: Result<T, ExecutorError>)
    ensures
        refused(r, message@),
{
    Err(ExecutorError::TransitionInvalid(message))
}

fn input_str<'a>(inputs: &'a Fields, key: &str) -> (r: Result<&'a str, ExecutorError>)
    ensures
        match input_text(inputs@, key@) {
            Ok(text) => r is Ok && r->Ok_0@ == text,
            Err(complaint) => refused(r, complaint),
        },
{
    match inputs.get(key) {
        None => invalid(join3("missing input `", key, "`")),
        Some(value) => match value.as_str() {
            None => invalid(join3("input `", key, "` must be a string")),
            Some(text) => if text.is_empty() {
                invalid(join3("input `", key, "` must not be empty"))
            } else {
                Ok(text)
            },
        },
    }
}

fn has_float_mark(text: &str) -> (r: bool)
    ensures
        r == float_marked(text@),
{
    let chars = chars_of(text);
    let mut i: usize = 0;
    while i < chars.len()
        invariant
            chars@ == text@,
            i <= chars@.len(),
            forall|k: int|
                0 <= k < i ==> !(#[trigger] text@[k] == '.' || text@[k] == 'e' || text@[k] == 'E'),
        decreases chars@.len() - i,
    {
        let c: char = chars[i];
        if c == '.' || c == 'e' || c == 'E' {
            assert(text@[i as int] == c);
            return true;
        }
        i = i + 1;
    }
    false
}

fn parse_amount_str(value: &Value, key: &str) -> (r: Result<Amount, ExecutorError>)
    ensures
        match amount_in(value@, key@) {
            Ok(n) => r is Ok && r->Ok_0.value == n,
            Err(complaint) => refused(r, complaint),
        },
{
    match value.as_str() {
        None => invalid(join3("`", key, "` must be an integer string")),
        Some(text) => {
            if !text.is_empty() && has_float_mark(text) {
                return invalid(
                    join3("`", key, "` must be an integer string (floats are forbidden)"),
                );
            }
            match Amount::try_from_str(text) {
                Some(amount) => Ok(amount),
                None => invalid(join3("`", key, "` must be an integer string")),
            }
        },
    }
}

fn input_amount(inputs: &Fields, key: &str) -> (r: Result<Amount, ExecutorError>)
    ensures
        match input_amount_of(inputs@, key@) {
            Ok(n) => r is Ok && r->Ok_0.value == n,
            Err(complaint) => refused(r, complaint),
        },
{
    match inputs.get(key) {
        None => invalid(join3("missing input `", key, "`")),
        Some(value) => parse_amount_str(value, key),
    }
}

fn state_str<'a>(current: &'a Value, key: &str) -> (r: Result<&'a str, ExecutorError>)
    ensures
        match held_text(current@, key@) {
            Ok(text) => r is Ok && r->Ok_0@ == text,
            Err(complaint) => refused(r, complaint),
        },
{
    match current.get(key) {
        None => invalid(join3("state payload has no `", key, "`")),
        Some(value) => match value.as_str() {
            None => invalid(join3("`", key, "` must be a string")),
            Some(text) => Ok(text),
        },
    }
}

fn state_amount(current: &Value, key: &str) -> (r: Result<Amount, ExecutorError>)
    ensures
        match held_amount(current@, key@) {
            Ok(n) => r is Ok && r->Ok_0.value == n,
            Err(complaint) => refused(r, complaint),
        },
{
    match current.get(key) {
        None => invalid(join3("state payload has no `", key, "`")),
        Some(value) => parse_amount_str(value, key),
    }
}

fn state_bool(current: &Value, key: &str) -> (r: Result<bool, ExecutorError>)
    ensures
        match held_flag(current@, key@) {
            Ok(flag) => r is Ok && r->Ok_0 == flag,
            Err(complaint) => refused(r, complaint),
        },
{
    match current.get(key) {
        None => invalid(join3("state payload has no `", key, "`")),
        Some(value) => match value.as_bool() {
            None => invalid(join3("`", key, "` must be a boolean")),
            Some(flag) => Ok(flag),
        },
    }
}

fn require_current<'a>(before: Option<&'a Value>, operation: &Operation) -> (r: Result<
    &'a Value,
    ExecutorError,
>)
    ensures
        match before {
            Some(value) => r is Ok && *r->Ok_0 == *value,
            None => refused(r, needs_resource(operation.0@)),
        },
{
    match before {
        Some(value) => Ok(value),
        None => invalid(
            join3("operation `", operation.as_str(), "` requires an existing resource"),
        ),
    }
}

fn add_amounts(held: Amount, by: Amount, label: &str) -> (r: Result<Amount, ExecutorError>)
    ensures
        match raised(held.value, by.value, label@) {
            Ok(n) => r is Ok && r->Ok_0.value == n,
            Err(complaint) => refused(r, complaint),
        },
{
    match held.checked_add(by) {
        Some(sum) => Ok(sum),
        None => invalid(join3("`", label, "` overflow")),
    }
}

fn subtract_amounts(held: Amount, by: Amount, label: &str) -> (r: Result<Amount, ExecutorError>)
    ensures
        match lowered(held.value, by.value, label@) {
            Ok(n) => r is Ok && r->Ok_0.value == n,
            Err(complaint) => refused(r, complaint),
        },
{
    match held.checked_sub(by) {
        Some(difference) => Ok(difference),
        None => invalid(join3("`", label, "` underflow")),
    }
}

// ---------------------------------------------------------------------------
// Building payloads.
// ---------------------------------------------------------------------------
fn owned_payload(owner: &str, status: &str) -> (r: Value)
    ensures
        r@ == owned(owner@, status@),
{
    Value::object(
        Fields::new().with("owner", Value::text(owner)).with("status", Value::text(status)),
    )
}

fn holding_payload(subject: &str, field: &str, amount: Amount, unit: &str) -> (r: Value)
    ensures
        r@ == holding(subject@, field@, amount.value, unit@),
{
    Value::object(
        Fields::new().with("subject", Value::text(subject)).with(
            field,
            Value::String(amount.to_canonical_string()),
        ).with("unit", Value::text(unit)),
    )
}

fn entitlement_payload(subject: &str, status: &str, transferable: bool) -> (r: Value)
    ensures
        r@ == entitlement(subject@, status@, transferable),
{
    Value::object(
        Fields::new().with("subject", Value::text(subject)).with(
            "status",
            Value::text(status),
        ).with("transferable", Value::Bool(transferable)),
    )
}

fn metered_payload(subject: &str, remaining: Amount, maximum: Amount) -> (r: Value)
    ensures
        r@ == metered(subject@, remaining.value, maximum.value),
{
    Value::object(
        Fields::new().with("subject", Value::text(subject)).with(
            "remaining",
            Value::String(remaining.to_canonical_string()),
        ).with("maximum", Value::String(maximum.to_canonical_string())),
    )
}

// ---------------------------------------------------------------------------
// Unique asset.
// ---------------------------------------------------------------------------
fn asset_status<'a>(operation: &Operation, inputs: &'a Fields) -> (r: Option<&'a str>)
    ensures
        match asset_status_after(operation.0@, inputs@) {
            Some(status) => r is Some && r->0@ == status,
            None => r is None,
        },
{
    if operation.is("asset.burn") {
        Some("burned")
    } else if operation.is("asset.lock") {
        Some("locked")
    } else if operation.is("asset.unlock") || operation.is("asset.delist") || operation.is(
        "asset.release",
    ) || operation.is("asset.restore") {
        Some("active")
    } else if operation.is("asset.list") {
        Some("listed")
    } else if operation.is("asset.escrow") {
        Some("escrowed")
    } else if operation.is("asset.redeem") {
        Some("redeemed")
    } else if operation.is("asset.restrict") {
        match inputs.get("status") {
            Some(value) => match value.as_str() {
                Some(text) => Some(text),
                None => Some("restricted"),
            },
            None => Some("restricted"),
        }
    } else if operation.is("asset.hard_delete") {
        Some("tombstoned")
    } else {
        None
    }
}

fn apply_trade(owner: &str, operation: &Operation, inputs: &Fields) -> (r: Result<
    Value,
    ExecutorError,
>)
    ensures
        yields(r, trade_after(owner@, operation.0@, inputs@)),
{
    if operation.is("trade.lock") {
        input_str(inputs, "from_owner")?;
        let trade_id = input_str(inputs, "trade_id")?;
        Ok(
            Value::object(
                Fields::new().with("owner", Value::text(owner)).with(
                    "status",
                    Value::text("trade_held"),
                ).with("trade_id", Value::text(trade_id)),
            ),
        )
    } else if operation.is("trade.unlock") {
        input_str(inputs, "trade_id")?;
        Ok(owned_payload(owner, "active"))
    } else {
        input_str(inputs, "from_owner")?;
        let to_owner = input_str(inputs, "to_owner")?;
        input_str(inputs, "trade_id")?;
        Ok(owned_payload(to_owner, "active"))
    }
}

/// The payload of a unique asset after an operation.
pub fn apply_unique_asset(before: Option<&Value>, operation: &Operation, inputs: &Fields) -> (r: Result<
    Value,
    ExecutorError,
>)
    ensures
        yields(
            r,
            asset_after(
                match before {
                    Some(value) => Some(value@),
                    None => None,
                },
                operation.0@,
                inputs@,
            ),
        ),
{
    proof {
        reveal_strlit("");
    }
    let owner: &str = match before {
        Some(current) => state_str(current, "owner")?,
        None => "",
    };
    assert(before is None ==> owner@ =~= Seq::<char>::empty());
    if operation.is("asset.mint") || operation.is("asset.transfer") {
        let to_owner = input_str(inputs, "to_owner")?;
        return Ok(owned_payload(to_owner, "active"));
    }
    match asset_status(operation, inputs) {
        Some(status) => {
            return Ok(owned_payload(owner, status));
        },
        None => {},
    }
    if operation.is("trade.lock") || operation.is("trade.unlock") || operation.is("trade.settle") {
        require_current(before, operation)?;
        apply_trade(owner, operation, inputs)
    } else if operation.is("asset.attach_content") || operation.is("asset.detach_content")
        || operation.is("asset.update_metadata") {
        match before {
            Some(current) => Ok(current.clone()),
            None => invalid("operation requires an existing resource".to_owned()),
        }
    } else {
        invalid(join3("unknown unique asset operation `", operation.as_str(), "`"))
    }
}

// ---------------------------------------------------------------------------
// Stacks and balances.
// ---------------------------------------------------------------------------
fn create_holding(inputs: &Fields, field: &str) -> (r: Result<Value, ExecutorError>)
    ensures
        yields(r, holding_created(inputs@, field@)),
{
    let subject = input_str(inputs, "subject")?;
    let unit = input_str(inputs, "unit")?;
    let amount = input_amount(inputs, field)?;
    Ok(holding_payload(subject, field, amount, unit))
}

fn move_holding(
    before: Option<&Value>,
    operation: &Operation,
    inputs: &Fields,
    field: &str,
    amount_key: &str,
    label: &str,
    up: bool,
) -> (r: Result<Value, ExecutorError>)
    ensures
        yields(
            r,
            holding_moved(
                match before {
                    Some(value) => Some(value@),
                    None => None,
                },
                operation.0@,
                inputs@,
                field@,
                amount_key@,
                label@,
                up,
            ),
        ),
{
    let current = require_current(before, operation)?;
    let subject = state_str(current, "subject")?;
    let unit = state_str(current, "unit")?;
    let held = state_amount(current, field)?;
    let amount = input_amount(inputs, amount_key)?;
    let next = if up {
        add_amounts(held, amount, label)?
    } else {
        subtract_amounts(held, amount, label)?
    };
    Ok(holding_payload(subject, field, next, unit))
}

fn send_holding(
    before: Option<&Value>,
    operation: &Operation,
    inputs: &Fields,
    field: &str,
    amount_key: &str,
    label: &str,
) -> (r: Result<Value, ExecutorError>)
    ensures
        yields(
            r,
            holding_sent(
                match before {
                    Some(value) => Some(value@),
                    None => None,
                },
                operation.0@,
                inputs@,
                field@,
                amount_key@,
                label@,
            ),
        ),
{
    require_current(before, operation)?;
    input_str(inputs, "to_subject")?;
    move_holding(before, operation, inputs, field, amount_key, label, false)
}

/// The payload of a consumable stack after an operation.
pub fn apply_stack(before: Option<&Value>, operation: &Operation, inputs: &Fields) -> (r: Result<
    Value,
    ExecutorError,
>)
    ensures
        yields(
            r,
            stack_after(
                match before {
                    Some(value) => Some(value@),
                    None => None,
                },
                operation.0@,
                inputs@,
            ),
        ),
{
    if operation.is("stack.create") {
        create_holding(inputs, "quantity")
    } else if operation.is("stack.credit") || operation.is("stack.release") {
        move_holding(before, operation, inputs, "quantity", "quantity", "stack quantity", true)
    } else if operation.is("stack.debit") || operation.is("stack.consume") || operation.is(
        "stack.reserve",
    ) {
        move_holding(before, operation, inputs, "quantity", "quantity", "stack quantity", false)
    } else if operation.is("stack.transfer") {
        send_holding(before, operation, inputs, "quantity", "quantity", "stack quantity")
    } else if operation.is("stack.adjust") || operation.is("stack.expire") {
        let current = require_current(before, operation)?;
        let subject = state_str(current, "subject")?;
        let unit = state_str(current, "unit")?;
        let quantity = if operation.is("stack.adjust") {
            input_amount(inputs, "quantity")?
        } else {
            Amount::zero()
        };
        Ok(holding_payload(subject, "quantity", quantity, unit))
    } else {
        invalid(join3("unknown consumable stack operation `", operation.as_str(), "`"))
    }
}

/// The payload of a fungible balance after an operation.
pub fn apply_balance(before: Option<&Value>, operation: &Operation, inputs: &Fields) -> (r: Result<
    Value,
    ExecutorError,
>)
    ensures
        yields(
            r,
            balance_after(
                match before {
                    Some(value) => Some(value@),
                    None => None,
                },
                operation.0@,
                inputs@,
            ),
        ),
{
    if operation.is("balance.create") {
        create_holding(inputs, "balance")
    } else if operation.is("balance.mint") || operation.is("balance.credit") || operation.is(
        "balance.release",
    ) {
        move_holding(before, operation, inputs, "balance", "amount", "balance", true)
    } else if operation.is("balance.debit") || operation.is("balance.spend") || operation.is(
        "balance.reserve",
    ) || operation.is("balance.burn") {
        move_holding(before, operation, inputs, "balance", "amount", "balance", false)
    } else if operation.is("balance.transfer") {
        send_holding(before, operation, inputs, "balance", "amount", "balance")
    } else if operation.is("balance.convert") {
        let current = require_current(before, operation)?;
        let subject = state_str(current, "subject")?;
        let to_unit = input_str(inputs, "to_unit")?;
        let held = state_amount(current, "balance")?;
        let amount = input_amount(inputs, "amount")?;
        let next = subtract_amounts(held, amount, "balance")?;
        Ok(holding_payload(subject, "balance", next, to_unit))
    } else {
        invalid(join3("unknown fungible balance operation `", operation.as_str(), "`"))
    }
}

// ---------------------------------------------------------------------------
// Entitlement.
// ---------------------------------------------------------------------------
fn entitlement_status(operation: &Operation) -> (r: Option<&'static str>)
    ensures
        match entitlement_status_after(operation.0@) {
            Some(status) => r is Some && r->0@ == status,
            None => r is None,
        },
{
    if operation.is("entitlement.activate") || operation.is("entitlement.restore") {
        Some("active")
    } else if operation.is("entitlement.suspend") {
        Some("suspended")
    } else if operation.is("entitlement.expire") {
        Some("expired")
    } else if operation.is("entitlement.revoke") {
        Some("revoked")
    } else {
        None
    }
}

/// The payload of an entitlement after an operation.
pub fn apply_entitlement(before: Option<&Value>, operation: &Operation, inputs: &Fields) -> (r: Result<
    Value,
    ExecutorError,
>)
    ensures
        yields(
            r,
            entitlement_after(
                match before {
                    Some(value) => Some(value@),
                    None => None,
                },
                operation.0@,
                inputs@,
            ),
        ),
{
    if operation.is("entitlement.grant") {
        let subject = input_str(inputs, "subject")?;
        let transferable = match inputs.get("transferable") {
            Some(value) => match value.as_bool() {
                Some(flag) => flag,
                None => false,
            },
            None => false,
        };
        return Ok(entitlement_payload(subject, "granted", transferable));
    }
    match entitlement_status(operation) {
        Some(status) => {
            let current = require_current(before, operation)?;
            let subject = state_str(current, "subject")?;
            let transferable = state_bool(current, "transferable")?;
            return Ok(entitlement_payload(subject, status, transferable));
        },
        None => {},
    }
    if operation.is("entitlement.transfer") {
        let current = require_current(before, operation)?;
        let to_subject = input_str(inputs, "to_subject")?;
        let status = state_str(current, "status")?;
        let transferable = state_bool(current, "transferable")?;
        Ok(entitlement_payload(to_subject, status, transferable))
    } else {
        invalid(join3("unknown entitlement operation `", operation.as_str(), "`"))
    }
}

// ---------------------------------------------------------------------------
// Meter.
// ---------------------------------------------------------------------------
/// The payload of a metered resource after an operation.
pub fn apply_meter(before: Option<&Value>, operation: &Operation, inputs: &Fields) -> (r: Result<
    Value,
    ExecutorError,
>)
    ensures
        yields(
            r,
            meter_after(
                match before {
                    Some(value) => Some(value@),
                    None => None,
                },
                operation.0@,
                inputs@,
            ),
        ),
{
    if operation.is("meter.create") {
        let subject = input_str(inputs, "subject")?;
        let remaining = input_amount(inputs, "remaining")?;
        let maximum = input_amount(inputs, "maximum")?;
        Ok(metered_payload(subject, remaining, maximum))
    } else if operation.is("meter.consume") || operation.is("meter.refill") || operation.is(
        "meter.set_maximum",
    ) || operation.is("meter.reset") || operation.is("meter.expire") {
        let current = require_current(before, operation)?;
        let subject = state_str(current, "subject")?;
        if operation.is("meter.set_maximum") {
            let remaining = state_amount(current, "remaining")?;
            let maximum = input_amount(inputs, "maximum")?;
            let clamped = remaining.smaller(maximum);
            return Ok(metered_payload(subject, clamped, maximum));
        }
        let maximum = state_amount(current, "maximum")?;
        if operation.is("meter.consume") {
            let remaining = state_amount(current, "remaining")?;
            let amount = input_amount(inputs, "amount")?;
            let next = subtract_amounts(remaining, amount, "meter remaining")?;
            Ok(metered_payload(subject, next, maximum))
        } else if operation.is("meter.refill") {
            Ok(metered_payload(subject, maximum, maximum))
        } else {
            Ok(metered_payload(subject, Amount::zero(), maximum))
        }
    } else {
        invalid(join3("unknown meter operation `", operation.as_str(), "`"))
    }
}

// ---------------------------------------------------------------------------
// Listing and escrow.
// ---------------------------------------------------------------------------
fn listing_status(operation: &Operation) -> (r: Option<&'static str>)
    ensures
        match listing_status_after(operation.0@) {
            Some(status) => r is Some && r->0@ == status,
            None => r is None,
        },
{
    if operation.is("listing.cancel") {
        Some("cancelled")
    } else if operation.is("listing.buy") {
        Some("sold")
    } else if operation.is("listing.expire") {
        Some("expired")
    } else {
        None
    }
}

fn listed_payload(seller: &str, status: &str) -> (r: Value)
    ensures
        r@ == listed(seller@, status@),
{
    Value::object(
        Fields::new().with("seller", Value::text(seller)).with("status", Value::text(status)),
    )
}

/// The payload of a listing after an operation.
pub fn apply_listing(before: Option<&Value>, operation: &Operation, inputs: &Fields) -> (r: Result<
    Value,
    ExecutorError,
>)
    ensures
        yields(
            r,
            listing_after(
                match before {
                    Some(value) => Some(value@),
                    None => None,
                },
                operation.0@,
                inputs@,
            ),
        ),
{
    if operation.is("listing.create") {
        let seller = input_str(inputs, "seller")?;
        return Ok(listed_payload(seller, "listed"));
    }
    match listing_status(operation) {
        Some(status) => {
            let current = require_current(before, operation)?;
            let seller = state_str(current, "seller")?;
            Ok(listed_payload(seller, status))
        },
        None => invalid(join3("unknown listing operation `", operation.as_str(), "`")),
    }
}

fn escrow_status(operation: &Operation) -> (r: Option<&'static str>)
    ensures
        match escrow_status_after(operation.0@) {
            Some(status) => r is Some && r->0@ == status,
            None => r is None,
        },
{
    if operation.is("escrow.release") {
        Some("released")
    } else if operation.is("escrow.refund") {
        Some("refunded")
    } else {
        None
    }
}

fn escrowed_payload(buyer: &str, seller: &str, status: &str) -> (r: Value)
    ensures
        r@ == escrowed(buyer@, seller@, status@),
{
    Value::object(
        Fields::new().with("buyer", Value::text(buyer)).with("seller", Value::text(seller)).with(
            "status",
            Value::text(status),
        ),
    )
}

/// The payload of an escrow after an operation.
pub fn apply_escrow(before: Option<&Value>, operation: &Operation, inputs: &Fields) -> (r: Result<
    Value,
    ExecutorError,
>)
    ensures
        yields(
            r,
            escrow_after(
                match before {
                    Some(value) => Some(value@),
                    None => None,
                },
                operation.0@,
                inputs@,
            ),
        ),
{
    if operation.is("escrow.lock") {
        let buyer = input_str(inputs, "buyer")?;
        let seller = input_str(inputs, "seller")?;
        return Ok(escrowed_payload(buyer, seller, "locked"));
    }
    match escrow_status(operation) {
        Some(status) => {
            let current = require_current(before, operation)?;
            let buyer = state_str(current, "buyer")?;
            let seller = state_str(current, "seller")?;
            Ok(escrowed_payload(buyer, seller, status))
        },
        None => invalid(join3("unknown escrow operation `", operation.as_str(), "`")),
    }
}

// ---------------------------------------------------------------------------
// Transitions.
// ---------------------------------------------------------------------------
/// The type that a transition works on.
pub fn state_type_of(before: Option<&StateProjection>, operation: &Operation) -> (r: Result<
    StateType,
    ExecutorError,
>)
    ensures
        match type_for(before, operation.0@) {
            Some(state_type) => r is Ok && r->Ok_0 == state_type,
            None => refused(
                r,
                "cannot determine state type for operation `"@ + operation.0@ + "`"@,
            ),
        },
{
    match before {
        Some(projection) => Ok(projection.state_type),
        None => match operation.state_type_hint() {
            Some(state_type) => Ok(state_type),
            None => invalid(
                join3("cannot determine state type for operation `", operation.as_str(), "`"),
            ),
        },
    }
}

/// Computes the after-state payload of a transition.
///
/// `before` is the current projection, or nothing when the resource does not
/// exist yet. For a transfer this is the source side only; the destination
/// side is [`transfer_after_state`].
pub fn apply(before: Option<&StateProjection>, operation: &Operation, inputs: &Fields) -> (r: Result<
    Value,
    ExecutorError,
>)
    ensures
        yields(r, after_state(before, operation.0@, inputs@)),
{
    let state_type = state_type_of(before, operation)?;
    let current: Option<&Value> = match before {
        Some(projection) => Some(&projection.state.payload),
        None => None,
    };
    match state_type {
        StateType::UniqueAsset => apply_unique_asset(current, operation, inputs),
        StateType::ConsumableStack => apply_stack(current, operation, inputs),
        StateType::FungibleBalance => apply_balance(current, operation, inputs),
        StateType::Entitlement => apply_entitlement(current, operation, inputs),
        StateType::MeteredResource => apply_meter(current, operation, inputs),
        StateType::Listing => apply_listing(current, operation, inputs),
        StateType::Escrow => apply_escrow(current, operation, inputs),
    }
}

fn receive_holding(
    source: &Value,
    destination: Option<&Value>,
    inputs: &Fields,
    field: &str,
    amount_key: &str,
    label: &str,
) -> (r: Result<Value, ExecutorError>)
    ensures
        yields(
            r,
            holding_received(
                source@,
                match destination {
                    Some(value) => Some(value@),
                    None => None,
                },
                inputs@,
                field@,
                amount_key@,
                label@,
            ),
        ),
{
    let to_subject = input_str(inputs, "to_subject")?;
    let unit = state_str(source, "unit")?;
    let amount = input_amount(inputs, amount_key)?;
    let existing = match destination {
        Some(current) => state_amount(current, field)?,
        None => Amount::zero(),
    };
    let next = add_amounts(existing, amount, label)?;
    Ok(holding_payload(to_subject, field, next, unit))
}

/// Computes the credited payload of a transfer's destination.
///
/// `destination` is the destination's current projection, or nothing when the
/// credit creates it.
pub fn transfer_after_state(
    source: &StateProjection,
    destination: Option<&StateProjection>,
    operation: &Operation,
    inputs: &Fields,
) -> (r: Result<Value, ExecutorError>)
    ensures
        yields(
            r,
            credited_state(source.state.payload@, payload_of(destination), operation.0@, inputs@),
        ),
{
    let current: Option<&Value> = match destination {
        Some(projection) => Some(&projection.state.payload),
        None => None,
    };
    if operation.is("stack.transfer") {
        receive_holding(
            &source.state.payload,
            current,
            inputs,
            "quantity",
            "quantity",
            "stack quantity",
        )
    } else if operation.is("balance.transfer") {
        receive_holding(&source.state.payload, current, inputs, "balance", "amount", "balance")
    } else {
        invalid(join3("destination credit not defined for operation `", operation.as_str(), "`"))
    }
}

// ---------------------------------------------------------------------------
// State keys.
// ---------------------------------------------------------------------------
/// What identifies a state record.
#[derive(Debug, PartialEq, Eq)]
pub enum StateKey {
    /// A record keyed by its resource alone.
    ForResource {
        /// The tenant.
        tenant: String,
        /// The resource.
        resource: String,
    },
    /// A record keyed by its resource and holder.
    ForSubjectHeld {
        /// The tenant.
        tenant: String,
        /// The resource.
        resource: String,
        /// The holder.
        subject: String,
    },
}

impl StateKey {
    /// The key of an owner-based record.
    pub fn for_resource(tenant: &str, resource: &str) -> (r: Self)
        ensures
            match r {
                StateKey::ForResource { tenant: t, resource: x } => t@ == tenant@ && x@
                    == resource@,
                _ => false,
            },
    {
        StateKey::ForResource { tenant: tenant.to_owned(), resource: resource.to_owned() }
    }

    /// The key of a subject-held record.
    pub fn for_subject_held(tenant: &str, resource: &str, subject: &str) -> (r: Self)
        ensures
            match r {
                StateKey::ForSubjectHeld { tenant: t, resource: x, subject: s } => t@ == tenant@
                    && x@ == resource@ && s@ == subject@,
                _ => false,
            },
    {
        StateKey::ForSubjectHeld {
            tenant: tenant.to_owned(),
            resource: resource.to_owned(),
            subject: subject.to_owned(),
        }
    }
}

/// The key of a resource's state record.
///
/// Subject-held types need the holder; owner-based types ignore it.
pub fn state_key_for(
    state_type: StateType,
    tenant: &TenantId,
    subject: Option<&SubjectId>,
    resource: &ResourceId,
) -> (r: Result<StateKey, ExecutorError>)
    ensures
        match r {
            Ok(StateKey::ForSubjectHeld { tenant: t, resource: x, subject: s }) =>
                state_type.subject_held() && subject is Some && t@ == tenant.0@ && x@
                == resource.0@ && s@ == (subject->0).0@,
            Ok(StateKey::ForResource { tenant: t, resource: x }) => !state_type.subject_held()
                && t@ == tenant.0@ && x@ == resource.0@,
            Err(_) => state_type.subject_held() && subject is None && refused(
                r,
                "subject required for subject-held state type"@,
            ),
        },
{
    if state_type.is_subject_held() {
        match subject {
            Some(holder) => Ok(
                StateKey::for_subject_held(tenant.as_str(), resource.as_str(), holder.as_str()),
            ),
            None => invalid("subject required for subject-held state type".to_owned()),
        }
    } else {
        Ok(StateKey::for_resource(tenant.as_str(), resource.as_str()))
    }
}

} // verus!
