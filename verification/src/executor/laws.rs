//! Laws of the after-state rules.
//!
//! What every transition keeps, over the functions that the executable rules
//! are proved to compute.
use vstd::prelude::*;

use crate::amount::{amount_of, decimal, lemma_amount_of_decimal, lemma_decimal_shape};
use crate::domain::event::Event;
use crate::domain::intent::AuthorityProof;
use crate::domain::state::{StateProjection, StateType};
use crate::executor::execution::{accepted_events, by_ref, Run};
use crate::executor::names::lemma_operation_names;
use crate::executor::pipeline::transfers;
use crate::executor::atomicity::{moved_field, pair_fault, recorded_amount, transfer_shaped};
use crate::executor::transition::{
    after_of, amount_in, asset_after, balance_after, credited_state,
    float_marked, held_amount, held_flag, held_text, holding, holding_moved, input_amount_of,
    input_text, meter_after, metered, owned, payload_of, stack_after, trade_held,
};
use crate::json::Json;

verus! {

/// The payload field names are different texts.
pub proof fn lemma_field_names()
    ensures
        "quantity"@ != "unit"@,
        "balance"@ != "unit"@,
        "quantity"@ != "subject"@,
        "balance"@ != "subject"@,
        "subject"@ != "unit"@,
        "remaining"@ != "maximum"@,
        "subject"@ != "maximum"@,
        "subject"@ != "remaining"@,
        "owner"@ != "status"@,
        "owner"@ != "trade_id"@,
        "status"@ != "trade_id"@,
        "subject"@ != "status"@,
        "subject"@ != "transferable"@,
        "status"@ != "transferable"@,
        "seller"@ != "status"@,
        "buyer"@ != "seller"@,
        "buyer"@ != "status"@,
{
    reveal_strlit("quantity");
    reveal_strlit("balance");
    reveal_strlit("unit");
    reveal_strlit("subject");
    reveal_strlit("remaining");
    reveal_strlit("maximum");
    reveal_strlit("owner");
    reveal_strlit("status");
    reveal_strlit("trade_id");
    reveal_strlit("transferable");
    reveal_strlit("seller");
    reveal_strlit("buyer");
    assert("quantity"@.len() == 8);
    assert("balance"@.len() == 7);
    assert("unit"@.len() == 4);
    assert("subject"@.len() == 7);
    assert("remaining"@.len() == 9);
    assert("maximum"@.len() == 7);
    assert("owner"@.len() == 5);
    assert("status"@.len() == 6);
    assert("trade_id"@.len() == 8);
    assert("transferable"@.len() == 12);
    assert("seller"@.len() == 6);
    assert("buyer"@.len() == 5);
    assert("balance"@[0] == 'b');
    assert("subject"@[0] == 's');
    assert("maximum"@[0] == 'm');
    assert("status"@[1] == 't');
    assert("seller"@[1] == 'e');
}

/// A decimal notation holds no decimal point and no exponent mark.
pub proof fn lemma_decimal_unmarked(n: nat)
    ensures
        !float_marked(decimal(n)),
        decimal(n).len() > 0,
{
    lemma_decimal_shape(n);
    assert forall|i: int| 0 <= i < decimal(n).len() implies !(#[trigger] decimal(n)[i] == '.'
        || decimal(n)[i] == 'e' || decimal(n)[i] == 'E') by {
        assert(crate::amount::is_digit(decimal(n)[i]));
    }
}

/// The text of an amount reads back as that amount.
pub proof fn lemma_amount_reads_back(n: u128, key: Seq<char>)
    ensures
        amount_in(Json::Str(decimal(n as nat)), key) == Ok::<u128, Seq<char>>(n),
        amount_of(decimal(n as nat)) == Some(n),
{
    lemma_decimal_unmarked(n as nat);
    lemma_amount_of_decimal(n);
}

/// What a holding's payload records.
proof fn lemma_holding(subject: Seq<char>, field: Seq<char>, amount: u128, unit: Seq<char>)
    requires
        field == "quantity"@ || field == "balance"@,
    ensures
        held_text(holding(subject, field, amount, unit), "subject"@) == Ok::<
            Seq<char>,
            Seq<char>,
        >(subject),
        held_text(holding(subject, field, amount, unit), "unit"@) == Ok::<Seq<char>, Seq<char>>(
            unit,
        ),
        held_amount(holding(subject, field, amount, unit), field) == Ok::<u128, Seq<char>>(amount),
        recorded_amount(holding(subject, field, amount, unit), field) == Some(amount),
{
    lemma_field_names();
    lemma_amount_reads_back(amount, field);
}

/// A held amount is also a recorded amount.
proof fn lemma_held_is_recorded(state: Json, field: Seq<char>)
    requires
        held_amount(state, field) is Ok,
    ensures
        recorded_amount(state, field) == Some(held_amount(state, field)->Ok_0),
{
}

/// The input that names a transfer's amount.
pub open spec fn amount_key(op: Seq<char>) -> Seq<char> {
    if op == "stack.transfer"@ {
        "quantity"@
    } else {
        "amount"@
    }
}

/// What a transfer's destination records before the credit.
pub open spec fn existing_amount(destination: Option<Json>, field: Seq<char>) -> Option<u128> {
    match destination {
        Some(state) => recorded_amount(state, field),
        None => Some(0),
    }
}

/// A transfer conserves the total: the source loses exactly what the
/// destination gains, the source had at least that much, holder and unit of
/// the source stay, and the destination is held by the named subject in the
/// source's unit.
pub proof fn law_transfer_conserves_the_total(
    state_type: StateType,
    op: Seq<char>,
    source: Json,
    destination: Option<Json>,
    inputs: Map<Seq<char>, Json>,
    sent: Json,
    received: Json,
)
    requires
        moved_field(op) is Some,
        after_of(state_type, Some(source), op, inputs) == Ok::<Json, Seq<char>>(sent),
        credited_state(source, destination, op, inputs) == Ok::<Json, Seq<char>>(received),
        op == "stack.transfer"@ ==> state_type == StateType::ConsumableStack,
        op == "balance.transfer"@ ==> state_type == StateType::FungibleBalance,
    ensures
        ({
            let field = moved_field(op)->0;
            let amount = input_amount_of(inputs, amount_key(op))->Ok_0;
            &&& input_amount_of(inputs, amount_key(op)) is Ok
            &&& recorded_amount(source, field) is Some
            &&& existing_amount(destination, field) is Some
            &&& recorded_amount(sent, field) is Some
            &&& recorded_amount(received, field) is Some
            &&& amount <= recorded_amount(source, field)->0
            &&& recorded_amount(sent, field)->0 == recorded_amount(source, field)->0 - amount
            &&& recorded_amount(received, field)->0 == existing_amount(destination, field)->0
                + amount
            &&& recorded_amount(sent, field)->0 + recorded_amount(received, field)->0
                == recorded_amount(source, field)->0 + existing_amount(destination, field)->0
            &&& held_text(sent, "subject"@) == held_text(source, "subject"@)
            &&& held_text(sent, "unit"@) == held_text(source, "unit"@)
            &&& held_text(received, "unit"@) == held_text(source, "unit"@)
            &&& held_text(received, "subject"@) == input_text(inputs, "to_subject"@)
        }),
{
    lemma_operation_names();
    let field = moved_field(op)->0;
    let key = amount_key(op);
    let subject = held_text(source, "subject"@)->Ok_0;
    let unit = held_text(source, "unit"@)->Ok_0;
    let held = held_amount(source, field)->Ok_0;
    let amount = input_amount_of(inputs, key)->Ok_0;
    let to_subject = input_text(inputs, "to_subject"@)->Ok_0;
    lemma_held_is_recorded(source, field);
    match destination {
        Some(state) => {
            lemma_held_is_recorded(state, field);
        },
        None => {},
    }
    lemma_holding(subject, field, (held - amount) as u128, unit);
    let existing = existing_amount(destination, field)->0;
    lemma_holding(to_subject, field, (existing + amount) as u128, unit);
}

/// The two events of a transfer of a positive amount form a valid pair; those
/// of a transfer of nothing do not.
pub proof fn law_transfers_form_valid_pairs(
    state_type: StateType,
    destination: Option<Json>,
    inputs: Map<Seq<char>, Json>,
    debit: Event,
    credit: Event,
    intent_id: Seq<char>,
)
    requires
        transfer_shaped(debit, credit),
        debit.operation.0@ == "stack.transfer"@ ==> state_type == StateType::ConsumableStack,
        debit.operation.0@ == "balance.transfer"@ ==> state_type == StateType::FungibleBalance,
        after_of(state_type, Some(debit.before.state.payload@), debit.operation.0@, inputs) == Ok::<
            Json,
            Seq<char>,
        >(debit.after.state.payload@),
        credited_state(debit.before.state.payload@, destination, debit.operation.0@, inputs) == Ok::<
            Json,
            Seq<char>,
        >(credit.after.state.payload@),
        credit.before.state.payload@ == match destination {
            Some(state) => state,
            None => Json::Object(Map::empty()),
        },
    ensures
        pair_fault(intent_id, debit, credit) is None <==> input_amount_of(
            inputs,
            amount_key(debit.operation.0@),
        )->Ok_0 > 0,
{
    law_transfer_conserves_the_total(
        state_type,
        debit.operation.0@,
        debit.before.state.payload@,
        destination,
        inputs,
        debit.after.state.payload@,
        credit.after.state.payload@,
    );
    let field = moved_field(debit.operation.0@)->0;
    assert(recorded_amount(Json::Object(Map::empty()), field) == Some(0u128));
    assert(recorded_amount(credit.before.state.payload@, field) == existing_amount(
        destination,
        field,
    ));
}

/// A debit never takes more than there is: it succeeds only within the held
/// amount and leaves exactly the difference, and asking for more is refused as
/// an underflow.
pub proof fn law_debits_never_overdraw(
    state: Json,
    op: Seq<char>,
    inputs: Map<Seq<char>, Json>,
    field: Seq<char>,
    key: Seq<char>,
    label: Seq<char>,
)
    requires
        field == "quantity"@ || field == "balance"@,
        held_text(state, "subject"@) is Ok,
        held_text(state, "unit"@) is Ok,
        held_amount(state, field) is Ok,
        input_amount_of(inputs, key) is Ok,
    ensures
        ({
            let held = held_amount(state, field)->Ok_0;
            let amount = input_amount_of(inputs, key)->Ok_0;
            let after = holding_moved(Some(state), op, inputs, field, key, label, false);
            if amount <= held {
                after is Ok && held_amount(after->Ok_0, field) == Ok::<u128, Seq<char>>(
                    (held - amount) as u128,
                )
            } else {
                after == Err::<Json, Seq<char>>("`"@ + label + "` underflow"@)
            }
        }),
{
    let held = held_amount(state, field)->Ok_0;
    let amount = input_amount_of(inputs, key)->Ok_0;
    if amount <= held {
        lemma_holding(
            held_text(state, "subject"@)->Ok_0,
            field,
            (held - amount) as u128,
            held_text(state, "unit"@)->Ok_0,
        );
    }
}

/// A credit followed by a debit of the same amount gives the holding back.
pub proof fn law_debit_undoes_credit(
    state: Json,
    op: Seq<char>,
    inputs: Map<Seq<char>, Json>,
    field: Seq<char>,
    key: Seq<char>,
    label: Seq<char>,
)
    requires
        field == "quantity"@ || field == "balance"@,
        holding_moved(Some(state), op, inputs, field, key, label, true) is Ok,
    ensures
        ({
            let credited = holding_moved(Some(state), op, inputs, field, key, label, true)->Ok_0;
            let debited = holding_moved(Some(credited), op, inputs, field, key, label, false);
            &&& debited is Ok
            &&& held_amount(debited->Ok_0, field) == held_amount(state, field)
            &&& held_text(debited->Ok_0, "subject"@) == held_text(state, "subject"@)
            &&& held_text(debited->Ok_0, "unit"@) == held_text(state, "unit"@)
        }),
{
    let subject = held_text(state, "subject"@)->Ok_0;
    let unit = held_text(state, "unit"@)->Ok_0;
    let held = held_amount(state, field)->Ok_0;
    let amount = input_amount_of(inputs, key)->Ok_0;
    lemma_holding(subject, field, (held + amount) as u128, unit);
    lemma_holding(subject, field, held, unit);
}

/// A debit followed by a credit of the same amount gives the payload back
/// exactly.
pub proof fn law_credit_undoes_debit(
    subject: Seq<char>,
    held: u128,
    unit: Seq<char>,
    debit: Seq<char>,
    credit: Seq<char>,
    inputs: Map<Seq<char>, Json>,
    field: Seq<char>,
    key: Seq<char>,
    label: Seq<char>,
    debited: Json,
)
    requires
        field == "quantity"@ || field == "balance"@,
        holding_moved(
            Some(holding(subject, field, held, unit)),
            debit,
            inputs,
            field,
            key,
            label,
            false,
        ) == Ok::<Json, Seq<char>>(debited),
    ensures
        holding_moved(Some(debited), credit, inputs, field, key, label, true) == Ok::<
            Json,
            Seq<char>,
        >(holding(subject, field, held, unit)),
{
    let amount = input_amount_of(inputs, key)->Ok_0;
    lemma_field_names();
    lemma_amount_reads_back(held, field);
    assert(held_amount(holding(subject, field, held, unit), field) == Ok::<u128, Seq<char>>(held));
    lemma_amount_reads_back((held - amount) as u128, field);
}

/// What is debited from, consumed from or reserved of a stack comes back with
/// a credit or a release of the same quantity: the payload is restored exactly.
pub proof fn law_stacks_are_restored_by_credits(
    subject: Seq<char>,
    quantity: u128,
    unit: Seq<char>,
    debit: Seq<char>,
    credit: Seq<char>,
    inputs: Map<Seq<char>, Json>,
    debited: Json,
)
    requires
        debit == "stack.debit"@ || debit == "stack.consume"@ || debit == "stack.reserve"@,
        credit == "stack.credit"@ || credit == "stack.release"@,
        stack_after(Some(holding(subject, "quantity"@, quantity, unit)), debit, inputs) == Ok::<
            Json,
            Seq<char>,
        >(debited),
    ensures
        stack_after(Some(debited), credit, inputs) == Ok::<Json, Seq<char>>(
            holding(subject, "quantity"@, quantity, unit),
        ),
{
    lemma_operation_names();
    law_credit_undoes_debit(
        subject,
        quantity,
        unit,
        debit,
        credit,
        inputs,
        "quantity"@,
        "quantity"@,
        "stack quantity"@,
        debited,
    );
}

/// What is debited from, spent from, reserved of or burned from a balance comes
/// back with a credit, a release or a mint of the same amount: the payload is
/// restored exactly.
pub proof fn law_balances_are_restored_by_credits(
    subject: Seq<char>,
    balance: u128,
    unit: Seq<char>,
    debit: Seq<char>,
    credit: Seq<char>,
    inputs: Map<Seq<char>, Json>,
    debited: Json,
)
    requires
        debit == "balance.debit"@ || debit == "balance.spend"@ || debit == "balance.reserve"@
            || debit == "balance.burn"@,
        credit == "balance.mint"@ || credit == "balance.credit"@ || credit == "balance.release"@,
        balance_after(Some(holding(subject, "balance"@, balance, unit)), debit, inputs) == Ok::<
            Json,
            Seq<char>,
        >(debited),
    ensures
        balance_after(Some(debited), credit, inputs) == Ok::<Json, Seq<char>>(
            holding(subject, "balance"@, balance, unit),
        ),
{
    lemma_operation_names();
    law_credit_undoes_debit(
        subject,
        balance,
        unit,
        debit,
        credit,
        inputs,
        "balance"@,
        "amount"@,
        "balance"@,
        debited,
    );
}

/// An active asset that is locked for a trade is held for that trade, and
/// unlocking it restores its payload exactly: the trade is forgotten.
pub proof fn law_unlock_undoes_trade_lock(
    owner: Seq<char>,
    lock_inputs: Map<Seq<char>, Json>,
    unlock_inputs: Map<Seq<char>, Json>,
    held: Json,
)
    requires
        asset_after(Some(owned(owner, "active"@)), "trade.lock"@, lock_inputs) == Ok::<
            Json,
            Seq<char>,
        >(held),
        input_text(unlock_inputs, "trade_id"@) is Ok,
    ensures
        input_text(lock_inputs, "trade_id"@) is Ok,
        held == trade_held(owner, input_text(lock_inputs, "trade_id"@)->Ok_0),
        asset_after(Some(held), "trade.unlock"@, unlock_inputs) == Ok::<Json, Seq<char>>(
            owned(owner, "active"@),
        ),
{
    lemma_field_names();
    lemma_operation_names();
}

/// An existing meter keeps its subject, and its remainder stays within its
/// maximum. A new maximum cuts the remainder down to it; every other operation
/// keeps the maximum: consuming takes the amount from the remainder, refilling
/// restores it to the maximum, and resetting and expiring leave nothing.
pub proof fn law_meters_stay_within_their_maximum(
    state: Json,
    op: Seq<char>,
    inputs: Map<Seq<char>, Json>,
    next: Json,
)
    requires
        op != "meter.create"@,
        meter_after(Some(state), op, inputs) == Ok::<Json, Seq<char>>(next),
        held_amount(state, "remaining"@) is Ok,
        held_amount(state, "maximum"@) is Ok,
        held_amount(state, "remaining"@)->Ok_0 <= held_amount(state, "maximum"@)->Ok_0,
    ensures
        ({
            let remaining = held_amount(state, "remaining"@)->Ok_0;
            let maximum = held_amount(state, "maximum"@)->Ok_0;
            let left = held_amount(next, "remaining"@)->Ok_0;
            let most = held_amount(next, "maximum"@)->Ok_0;
            let amount = input_amount_of(inputs, "amount"@);
            let limit = input_amount_of(inputs, "maximum"@);
            &&& held_amount(next, "remaining"@) is Ok
            &&& held_amount(next, "maximum"@) is Ok
            &&& left <= most
            &&& held_text(next, "subject"@) == held_text(state, "subject"@)
            &&& op == "meter.set_maximum"@ ==> limit is Ok && most == limit->Ok_0 && left == if
                remaining <= most {
                remaining
            } else {
                most
            }
            &&& op != "meter.set_maximum"@ ==> most == maximum
            &&& op == "meter.consume"@ ==> amount is Ok && left == remaining - amount->Ok_0
            &&& op == "meter.refill"@ ==> left == maximum
            &&& op == "meter.reset"@ || op == "meter.expire"@ ==> left == 0
        }),
{
    lemma_field_names();
    lemma_operation_names();
    assert forall|subject: Seq<char>, remaining: u128, maximum: u128|
        next == #[trigger] metered(subject, remaining, maximum) implies held_amount(
        next,
        "remaining"@,
    ) == Ok::<u128, Seq<char>>(remaining) && held_amount(next, "maximum"@) == Ok::<
        u128,
        Seq<char>,
    >(maximum) && held_text(next, "subject"@) == Ok::<Seq<char>, Seq<char>>(subject) by {
        lemma_amount_reads_back(remaining, "remaining"@);
        lemma_amount_reads_back(maximum, "maximum"@);
    }
}

/// Only a mint, a transfer or a settlement changes the owner of a unique
/// asset.
pub proof fn law_owners_change_only_by_transfer(
    state: Json,
    op: Seq<char>,
    inputs: Map<Seq<char>, Json>,
    next: Json,
)
    requires
        op != "asset.mint"@,
        op != "asset.transfer"@,
        op != "trade.settle"@,
        asset_after(Some(state), op, inputs) == Ok::<Json, Seq<char>>(next),
    ensures
        held_text(next, "owner"@) == held_text(state, "owner"@),
{
    lemma_field_names();
}

/// Whether a payload has the fields that the rules of its type read.
pub open spec fn well_formed(state_type: StateType, state: Json) -> bool {
    match state_type {
        StateType::UniqueAsset => held_text(state, "owner"@) is Ok && held_text(
            state,
            "status"@,
        ) is Ok,
        StateType::ConsumableStack => held_text(state, "subject"@) is Ok && held_text(
            state,
            "unit"@,
        ) is Ok && held_amount(state, "quantity"@) is Ok,
        StateType::FungibleBalance => held_text(state, "subject"@) is Ok && held_text(
            state,
            "unit"@,
        ) is Ok && held_amount(state, "balance"@) is Ok,
        StateType::Entitlement => held_text(state, "subject"@) is Ok && held_text(
            state,
            "status"@,
        ) is Ok && held_flag(state, "transferable"@) is Ok,
        StateType::MeteredResource => held_text(state, "subject"@) is Ok && held_amount(
            state,
            "remaining"@,
        ) is Ok && held_amount(state, "maximum"@) is Ok,
        StateType::Listing => held_text(state, "seller"@) is Ok && held_text(
            state,
            "status"@,
        ) is Ok,
        StateType::Escrow => held_text(state, "buyer"@) is Ok && held_text(state, "seller"@) is Ok
            && held_text(state, "status"@) is Ok,
    }
}

/// Every transition leads to a payload with the fields that the rules of its
/// type read, so no accepted transition makes a resource unusable.
pub proof fn law_transitions_keep_payloads_well_formed(
    state_type: StateType,
    before: Option<Json>,
    op: Seq<char>,
    inputs: Map<Seq<char>, Json>,
    next: Json,
)
    requires
        before is Some ==> well_formed(state_type, before->0),
        after_of(state_type, before, op, inputs) == Ok::<Json, Seq<char>>(next),
    ensures
        well_formed(state_type, next),
{
    lemma_field_names();
    assert forall|n: u128, key: Seq<char>|
        #[trigger] amount_in(Json::Str(decimal(n as nat)), key) == Ok::<u128, Seq<char>>(n) by {
        lemma_amount_reads_back(n, key);
    }
}

/// The credited destination of a transfer has the fields that the rules of its
/// type read.
pub proof fn law_credits_are_well_formed(
    state_type: StateType,
    source: Json,
    destination: Option<Json>,
    op: Seq<char>,
    inputs: Map<Seq<char>, Json>,
    next: Json,
)
    requires
        op == "stack.transfer"@ ==> state_type == StateType::ConsumableStack,
        op == "balance.transfer"@ ==> state_type == StateType::FungibleBalance,
        credited_state(source, destination, op, inputs) == Ok::<Json, Seq<char>>(next),
    ensures
        well_formed(state_type, next),
{
    lemma_field_names();
    lemma_operation_names();
    assert forall|n: u128, key: Seq<char>|
        #[trigger] amount_in(Json::Str(decimal(n as nat)), key) == Ok::<u128, Seq<char>>(n) by {
        lemma_amount_reads_back(n, key);
    }
}

/// The rules of a type know only the operations of that type: a transfer of a
/// stack changes stacks alone, and a transfer of a balance balances alone.
pub proof fn law_transfers_stay_within_their_type(
    state_type: StateType,
    before: Option<Json>,
    op: Seq<char>,
    inputs: Map<Seq<char>, Json>,
)
    requires
        moved_field(op) is Some,
        after_of(state_type, before, op, inputs) is Ok,
    ensures
        op == "stack.transfer"@ ==> state_type == StateType::ConsumableStack,
        op == "balance.transfer"@ ==> state_type == StateType::FungibleBalance,
{
    lemma_operation_names();
}

/// The two events of an accepted transfer of a positive amount are a valid
/// debit and credit pair; those of a transfer of nothing are refused as one.
pub proof fn law_accepted_transfers_are_valid_pairs(
    events: Seq<Event>,
    run: Run,
    state_type: StateType,
    current: Option<StateProjection>,
    destination: Option<StateProjection>,
    authority: Option<AuthorityProof>,
)
    requires
        accepted_events(events, run, state_type, current, destination, authority),
        transfers(run.intent.operation.0@),
    ensures
        events.len() == 2,
        pair_fault(run.intent.intent_id.0@, events[0], events[1]) is None <==> input_amount_of(
            run.intent.inputs@,
            amount_key(run.intent.operation.0@),
        )->Ok_0 > 0,
{
    let op = run.intent.operation.0@;
    let source = current->0;
    law_transfers_stay_within_their_type(
        source.state_type,
        Some(source.state.payload@),
        op,
        run.intent.inputs@,
    );
    law_transfers_form_valid_pairs(
        source.state_type,
        payload_of(by_ref(destination)),
        run.intent.inputs@,
        events[0],
        events[1],
        run.intent.intent_id.0@,
    );
}

} // verus!
