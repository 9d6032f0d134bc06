//! Multi-resource atomicity.
//!
//! A batch commits as a whole or not at all, so its events must fit together:
//! distinct event ids, one tenant, and distinct intent ids, except that a
//! transfer appears as exactly two events of one intent, a debit and a credit
//! of the same positive amount on the same resource.
use vstd::prelude::*;

use crate::amount::{amount_of, decimal, decimal_text, Amount};
use crate::domain::event::Event;
use crate::domain::ids::{Operation, TenantId};
use crate::domain::state::StateCommitment;
use crate::executor::error::ExecutorError;
use crate::json::{member, Json};
use crate::text::{
    increasing, insert_sorted, join3, join5, lemma_text_lt_asymmetric, lemma_text_lt_total,
    same_text, text_lt, texts,
};

verus! {

/// What is wrong with a batch.
#[verifier::ext_equal]
pub enum Fault {
    /// The batch is not one atomic unit.
    Atomicity(Seq<char>),
    /// A transfer's two sides do not match.
    Transfer(Seq<char>),
}

/// Whether an error reports a fault.
pub open spec fn reports(error: ExecutorError, fault: Fault) -> bool {
    match error {
        ExecutorError::AtomicityViolation(message) => fault == Fault::Atomicity(message@),
        ExecutorError::TransferMismatch(message) => fault == Fault::Transfer(message@),
        _ => false,
    }
}

/// The events of an intent, in order.
pub open spec fn group(events: Seq<Event>, intent_id: Seq<char>) -> Seq<Event>
    decreases events.len(),
{
    if events.len() == 0 {
        Seq::empty()
    } else {
        let rest = group(events.drop_last(), intent_id);
        if events.last().intent_id.0@ == intent_id {
            rest.push(events.last())
        } else {
            rest
        }
    }
}

/// Whether an event repeats the id of an earlier one.
pub open spec fn repeats_id(events: Seq<Event>, i: int) -> bool {
    exists|j: int| 0 <= j < i && (#[trigger] events[j]).event_id.0@ == events[i].event_id.0@
}

/// Whether an event belongs to another tenant than the first one.
pub open spec fn foreign(events: Seq<Event>, i: int) -> bool {
    events[i].tenant_id.0@ != events[0].tenant_id.0@
}

/// Whether an event does not fit the events before it.
pub open spec fn misfit(events: Seq<Event>, i: int) -> bool {
    0 <= i < events.len() && (repeats_id(events, i) || foreign(events, i))
}

/// What is wrong with an event that does not fit.
pub open spec fn misfit_fault(events: Seq<Event>, i: int) -> Fault {
    if repeats_id(events, i) {
        Fault::Atomicity("duplicate event id `"@ + events[i].event_id.0@ + "` in batch"@)
    } else {
        Fault::Atomicity(
            "mixed tenant scopes in batch (first tenant `"@ + events[0].tenant_id.0@ + "`)"@,
        )
    }
}

/// The payload field that a transfer operation moves.
pub open spec fn moved_field(operation: Seq<char>) -> Option<Seq<char>> {
    if operation == "stack.transfer"@ {
        Some("quantity"@)
    } else if operation == "balance.transfer"@ {
        Some("balance"@)
    } else {
        None
    }
}

/// The amount that a payload records under a field: zero when the field is
/// missing, nothing when what it holds is not an amount.
pub open spec fn recorded_amount(payload: Json, field: Seq<char>) -> Option<u128> {
    match member(payload, field) {
        None => Some(0),
        Some(Json::Str(text)) => amount_of(text),
        Some(_) => None,
    }
}

/// By how much an event lowers an amount.
pub open spec fn lowers(before: u128, after: u128) -> nat {
    if before >= after {
        (before - after) as nat
    } else {
        0
    }
}

/// By how much an event raises an amount.
pub open spec fn raises(before: u128, after: u128) -> nat {
    if after > before {
        (after - before) as nat
    } else {
        0
    }
}

/// The fault of an intent id that several events share without right.
pub open spec fn shared_intent_fault(intent_id: Seq<char>) -> Fault {
    Fault::Atomicity(
        "duplicate intent id `"@ + intent_id
            + "` in batch (only transfer pairs may share an intent id)"@,
    )
}

/// Whether two events have the shape of a transfer: the same transfer
/// operation on the same resource.
pub open spec fn transfer_shaped(first: Event, second: Event) -> bool {
    moved_field(first.operation.0@) is Some && first.operation.0@ == second.operation.0@
        && first.resource_id.0@ == second.resource_id.0@
}

/// What is wrong with a debit and a credit, if anything.
pub open spec fn net_fault(intent_id: Seq<char>, debit: nat, credit: nat) -> Option<Fault> {
    if debit > u128::MAX {
        Some(Fault::Transfer("debit overflow"@))
    } else if credit > u128::MAX {
        Some(Fault::Transfer("credit overflow"@))
    } else if debit == 0 || debit != credit {
        Some(
            Fault::Transfer(
                "net-zero violated for intent `"@ + intent_id + "`: debit "@ + decimal(debit)
                    + " != credit "@ + decimal(credit),
            ),
        )
    } else {
        None
    }
}

/// What is wrong with two events of one intent, if anything.
pub open spec fn pair_fault(intent_id: Seq<char>, first: Event, second: Event) -> Option<Fault> {
    if !transfer_shaped(first, second) {
        Some(shared_intent_fault(intent_id))
    } else {
        let field = moved_field(first.operation.0@)->0;
        let first_before = recorded_amount(first.before.state.payload@, field);
        let first_after = recorded_amount(first.after.state.payload@, field);
        let second_before = recorded_amount(second.before.state.payload@, field);
        let second_after = recorded_amount(second.after.state.payload@, field);
        match (first_before, first_after, second_before, second_after) {
            (Some(b1), Some(a1), Some(b2), Some(a2)) => net_fault(
                intent_id,
                lowers(b1, a1) + lowers(b2, a2),
                raises(b1, a1) + raises(b2, a2),
            ),
            _ => Some(Fault::Transfer("malformed `"@ + field + "` amount"@)),
        }
    }
}

/// What is wrong with the events of one intent, if anything.
pub open spec fn group_fault(events: Seq<Event>, intent_id: Seq<char>) -> Option<Fault> {
    let members = group(events, intent_id);
    if members.len() <= 1 {
        None
    } else if members.len() != 2 {
        Some(shared_intent_fault(intent_id))
    } else {
        pair_fault(intent_id, members[0], members[1])
    }
}

/// Whether an intent id is the first, in text order, whose events are faulty.
pub open spec fn least_faulty(events: Seq<Event>, intent_id: Seq<char>) -> bool {
    group_fault(events, intent_id) is Some && forall|other: Seq<char>|
        #[trigger] group_fault(events, other) is Some ==> !text_lt(other, intent_id)
}

/// Whether a batch is one atomic unit.
pub open spec fn batch_sound(events: Seq<Event>) -> bool {
    (forall|i: int| !#[trigger] misfit(events, i)) && (forall|id: Seq<char>|
        #[trigger] group_fault(events, id) is None)
}

/// Whether a fault is the first one of a batch: that of the first event that
/// does not fit or, when all fit, that of the first faulty intent id.
pub open spec fn first_fault(events: Seq<Event>, fault: Fault) -> bool {
    ||| exists|i: int|
        #[trigger] misfit(events, i) && (forall|j: int| 0 <= j < i ==> !#[trigger] misfit(events, j))
            && fault == misfit_fault(events, i)
    ||| (forall|i: int| !#[trigger] misfit(events, i)) && (exists|id: Seq<char>| #[trigger]
        least_faulty(events, id) && Some(fault) == group_fault(events, id))
}

fn transfer_field(operation: &Operation) -> (r: Option<&'static str>)
    ensures
        match moved_field(operation.0@) {
            Some(field) => r is Some && r->0@ == field,
            None => r is None,
        },
{
    if operation.is("stack.transfer") {
        Some("quantity")
    } else if operation.is("balance.transfer") {
        Some("balance")
    } else {
        None
    }
}

/// The amount that a state commitment records under a field. A missing field
/// reads as zero; a field that holds anything but an amount is malformed.
pub fn commitment_amount(commitment: &StateCommitment, field: &str) -> (r: Result<
    Amount,
    ExecutorError,
>)
    ensures
        match recorded_amount(commitment.state.payload@, field@) {
            Some(n) => r is Ok && r->Ok_0.value == n,
            None => r is Err && reports(
                r->Err_0,
                Fault::Transfer("malformed `"@ + field@ + "` amount"@),
            ),
        },
{
    let held = match commitment.state.payload.get(field) {
        None => {
            return Ok(Amount::zero());
        },
        Some(value) => value.as_str(),
    };
    let read = match held {
        Some(text) => Amount::try_from_str(text),
        None => None,
    };
    match read {
        Some(amount) => Ok(amount),
        None => Err(ExecutorError::TransferMismatch(join3("malformed `", field, "` amount"))),
    }
}

fn duplicate_intent_error(intent_id: &str) -> (r: ExecutorError)
    ensures
        reports(r, shared_intent_fault(intent_id@)),
{
    ExecutorError::AtomicityViolation(
        join3(
            "duplicate intent id `",
            intent_id,
            "` in batch (only transfer pairs may share an intent id)",
        ),
    )
}

/// Accepts two events of one intent that are the two sides of a transfer.
fn validate_transfer_pair(intent_id: &str, first: &Event, second: &Event) -> (r: Result<
    (),
    ExecutorError,
>)
    ensures
        match pair_fault(intent_id@, *first, *second) {
            None => r is Ok,
            Some(fault) => r is Err && reports(r->Err_0, fault),
        },
{
    let field = match transfer_field(&first.operation) {
        Some(field) => field,
        None => {
            return Err(duplicate_intent_error(intent_id));
        },
    };
    if !first.operation.same(&second.operation) || !first.resource_id.same(&second.resource_id) {
        return Err(duplicate_intent_error(intent_id));
    }
    let first_before = commitment_amount(&first.before, field)?;
    let first_after = commitment_amount(&first.after, field)?;
    let second_before = commitment_amount(&second.before, field)?;
    let second_after = commitment_amount(&second.after, field)?;
    let mut debit = Amount::zero();
    let mut credit = Amount::zero();
    if first_before.value >= first_after.value {
        debit = Amount::from_u128(first_before.value - first_after.value);
    } else {
        credit = Amount::from_u128(first_after.value - first_before.value);
    }
    if second_before.value >= second_after.value {
        let delta = Amount::from_u128(second_before.value - second_after.value);
        match debit.checked_add(delta) {
            Some(sum) => {
                debit = sum;
            },
            None => {
                return Err(ExecutorError::TransferMismatch("debit overflow".to_owned()));
            },
        }
    } else {
        let delta = Amount::from_u128(second_after.value - second_before.value);
        match credit.checked_add(delta) {
            Some(sum) => {
                credit = sum;
            },
            None => {
                return Err(ExecutorError::TransferMismatch("credit overflow".to_owned()));
            },
        }
    }
    if debit.value == 0 || debit.value != credit.value {
        let debit_text = decimal_text(debit.value);
        let credit_text = decimal_text(credit.value);
        return Err(
            ExecutorError::TransferMismatch(
                crate::text::join6(
                    "net-zero violated for intent `",
                    intent_id,
                    "`: debit ",
                    debit_text.as_str(),
                    " != credit ",
                    credit_text.as_str(),
                ),
            ),
        );
    }
    Ok(())
}

/// Only intents that have events have faulty events.
proof fn lemma_group_nonempty(events: Seq<Event>, id: Seq<char>)
    ensures
        group(events, id).len() > 0 ==> exists|i: int|
            0 <= i < events.len() && (#[trigger] events[i]).intent_id.0@ == id,
    decreases events.len(),
{
    if events.len() > 0 {
        lemma_group_nonempty(events.drop_last(), id);
        if events.last().intent_id.0@ == id {
            assert(events[events.len() - 1].intent_id.0@ == id);
        } else if group(events, id).len() > 0 {
            let rest = events.drop_last();
            let i = choose|i: int| 0 <= i < rest.len() && (#[trigger] rest[i]).intent_id.0@ == id;
            assert(events[i].intent_id.0@ == id);
        }
    }
}

/// The intent ids of a batch, in text order.
fn intent_ids(events: &[Event]) -> (r: Vec<String>)
    ensures
        increasing(texts(r@)),
        forall|id: Seq<char>|
            #[trigger] texts(r@).contains(id) <==> exists|i: int|
                0 <= i < events@.len() && (#[trigger] events@[i]).intent_id.0@ == id,
{
    let mut ids: Vec<String> = Vec::new();
    let mut i: usize = 0;
    while i < events.len()
        invariant
            i <= events@.len(),
            increasing(texts(ids@)),
            forall|id: Seq<char>|
                #[trigger] texts(ids@).contains(id) <==> exists|k: int|
                    0 <= k < i && (#[trigger] events@[k]).intent_id.0@ == id,
        decreases events@.len() - i,
    {
        let ghost before = texts(ids@);
        insert_sorted(&mut ids, events[i].intent_id.as_str());
        proof {
            assert forall|id: Seq<char>| #[trigger] texts(ids@).contains(id) <==> exists|k: int|
                0 <= k < i + 1 && (#[trigger] events@[k]).intent_id.0@ == id by {
                assert(texts(ids@).contains(id) <==> before.contains(id) || id
                    == events@[i as int].intent_id.0@);
                if id == events@[i as int].intent_id.0@ {
                    assert(events@[i as int].intent_id.0@ == id);
                }
            }
        }
        i = i + 1;
    }
    ids
}

/// The positions of an intent's events.
fn positions(events: &[Event], intent_id: &str) -> (r: Vec<usize>)
    ensures
        r@.len() == group(events@, intent_id@).len(),
        forall|k: int|
            0 <= k < r@.len() ==> (#[trigger] r@[k]) < events@.len() && events@[r@[k] as int]
                == group(events@, intent_id@)[k],
{
    let mut found: Vec<usize> = Vec::new();
    let mut i: usize = 0;
    while i < events.len()
        invariant
            i <= events@.len(),
            found@.len() == group(events@.take(i as int), intent_id@).len(),
            forall|k: int|
                0 <= k < found@.len() ==> (#[trigger] found@[k]) < i && events@[found@[k] as int]
                    == group(events@.take(i as int), intent_id@)[k],
        decreases events@.len() - i,
    {
        assert(events@.take(i + 1).drop_last() =~= events@.take(i as int));
        assert(events@.take(i + 1).last() == events@[i as int]);
        if same_text(events[i].intent_id.as_str(), intent_id) {
            found.push(i);
        }
        i = i + 1;
    }
    assert(events@.take(i as int) =~= events@);
    found
}

/// Accepts the events of a batch that fit the events before them.
fn check_fit(events: &[Event]) -> (r: Result<(), ExecutorError>)
    ensures
        match r {
            Ok(()) => forall|i: int| !#[trigger] misfit(events@, i),
            Err(error) => exists|i: int| #[trigger]
                misfit(events@, i) && (forall|j: int| 0 <= j < i ==> !#[trigger] misfit(events@, j))
                    && reports(error, misfit_fault(events@, i)),
        },
{
    let mut i: usize = 0;
    while i < events.len()
        invariant
            i <= events@.len(),
            forall|j: int| 0 <= j < i ==> !#[trigger] misfit(events@, j),
        decreases events@.len() - i,
    {
        let mut j: usize = 0;
        while j < i
            invariant
                i < events@.len(),
                j <= i,
                forall|k: int| 0 <= k < i ==> !#[trigger] misfit(events@, k),
                forall|k: int|
                    0 <= k < j ==> (#[trigger] events@[k]).event_id.0@
                        != events@[i as int].event_id.0@,
            decreases i - j,
        {
            if events[j].event_id.same(&events[i].event_id) {
                assert(events@[j as int].event_id.0@ == events@[i as int].event_id.0@);
                assert(repeats_id(events@, i as int));
                assert(misfit(events@, i as int));
                return Err(
                    ExecutorError::AtomicityViolation(
                        join3("duplicate event id `", events[i].event_id.as_str(), "` in batch"),
                    ),
                );
            }
            j = j + 1;
        }
        assert(!repeats_id(events@, i as int));
        if !events[i].tenant_id.same(&events[0].tenant_id) {
            assert(misfit(events@, i as int));
            return Err(
                ExecutorError::AtomicityViolation(
                    join3(
                        "mixed tenant scopes in batch (first tenant `",
                        events[0].tenant_id.as_str(),
                        "`)",
                    ),
                ),
            );
        }
        i = i + 1;
    }
    Ok(())
}

/// Accepts the events of one intent that may stand together.
fn check_group(events: &[Event], intent_id: &str) -> (r: Result<(), ExecutorError>)
    ensures
        match group_fault(events@, intent_id@) {
            None => r is Ok,
            Some(fault) => r is Err && reports(r->Err_0, fault),
        },
{
    let found = positions(events, intent_id);
    if found.len() <= 1 {
        Ok(())
    } else if found.len() != 2 {
        Err(duplicate_intent_error(intent_id))
    } else {
        assert(found@[0] < events@.len());
        assert(found@[1] < events@.len());
        validate_transfer_pair(intent_id, &events[found[0]], &events[found[1]])
    }
}

/// Accepts a batch that is one atomic unit.
pub fn validate_batch_consistency(events: &[Event]) -> (r: Result<(), ExecutorError>)
    ensures
        match r {
            Ok(()) => batch_sound(events@),
            Err(error) => exists|fault: Fault| #[trigger]
                reports(error, fault) && first_fault(events@, fault),
        },
{
    match check_fit(events) {
        Ok(()) => {},
        Err(error) => {
            proof {
                let i = choose|i: int| #[trigger]
                    misfit(events@, i) && (forall|j: int|
                        0 <= j < i ==> !#[trigger] misfit(events@, j)) && reports(
                        error,
                        misfit_fault(events@, i),
                    );
                assert(first_fault(events@, misfit_fault(events@, i)));
            }
            return Err(error);
        },
    }
    let ids = intent_ids(events);
    let mut i: usize = 0;
    while i < ids.len()
        invariant
            i <= ids@.len(),
            increasing(texts(ids@)),
            forall|k: int| !#[trigger] misfit(events@, k),
            forall|id: Seq<char>|
                #[trigger] texts(ids@).contains(id) <==> exists|k: int|
                    0 <= k < events@.len() && (#[trigger] events@[k]).intent_id.0@ == id,
            forall|k: int| 0 <= k < i ==> group_fault(events@, #[trigger] texts(ids@)[k]) is None,
        decreases ids@.len() - i,
    {
        let ghost id = texts(ids@)[i as int];
        assert(id == ids@[i as int]@);
        match check_group(events, ids[i].as_str()) {
            Ok(()) => {},
            Err(error) => {
                proof {
                    let fault = group_fault(events@, id)->0;
                    assert forall|other: Seq<char>|
                        #[trigger] group_fault(events@, other) is Some implies !text_lt(
                        other,
                        id,
                    ) by {
                        if text_lt(other, id) {
                            lemma_group_nonempty(events@, other);
                            assert(texts(ids@).contains(other));
                            let k = choose|k: int|
                                0 <= k < texts(ids@).len() && texts(ids@)[k] == other;
                            lemma_text_lt_asymmetric(other, id);
                            assert(k > i);
                            assert(text_lt(texts(ids@)[i as int], texts(ids@)[k]));
                        }
                    }
                    assert(least_faulty(events@, id));
                    assert(first_fault(events@, fault));
                    assert(reports(error, fault));
                }
                return Err(error);
            },
        }
        i = i + 1;
    }
    proof {
        assert forall|id: Seq<char>| #[trigger] group_fault(events@, id) is None by {
            if group_fault(events@, id) is Some {
                lemma_group_nonempty(events@, id);
                assert(texts(ids@).contains(id));
                let k = choose|k: int| 0 <= k < texts(ids@).len() && texts(ids@)[k] == id;
                assert(group_fault(events@, texts(ids@)[k]) is None);
            }
        }
    }
    Ok(())
}

/// A batch has at most one first fault.
pub proof fn law_first_fault_is_unique(events: Seq<Event>, a: Fault, b: Fault)
    requires
        first_fault(events, a),
        first_fault(events, b),
    ensures
        a == b,
{
    if exists|i: int| #[trigger] misfit(events, i) {
        let i = choose|i: int|
            #[trigger] misfit(events, i) && (forall|j: int|
                0 <= j < i ==> !#[trigger] misfit(events, j)) && a == misfit_fault(events, i);
        let j = choose|i: int|
            #[trigger] misfit(events, i) && (forall|j: int|
                0 <= j < i ==> !#[trigger] misfit(events, j)) && b == misfit_fault(events, i);
        assert(i == j);
    } else {
        let x = choose|id: Seq<char>| #[trigger]
            least_faulty(events, id) && Some(a) == group_fault(events, id);
        let y = choose|id: Seq<char>| #[trigger]
            least_faulty(events, id) && Some(b) == group_fault(events, id);
        lemma_text_lt_total(x, y);
    }
}

/// An accepted batch has no fault: acceptance and rejection exclude each other.
pub proof fn law_sound_batches_have_no_fault(events: Seq<Event>, fault: Fault)
    requires
        batch_sound(events),
    ensures
        !first_fault(events, fault),
{
    if first_fault(events, fault) {
        assert(!exists|i: int| #[trigger] misfit(events, i));
        let id = choose|id: Seq<char>| #[trigger]
            least_faulty(events, id) && Some(fault) == group_fault(events, id);
        assert(group_fault(events, id) is None);
    }
}

// ---------------------------------------------------------------------------
// Cross-tenant transactions.
// ---------------------------------------------------------------------------
/// The events that one tenant's leg of a cross-tenant transaction produced.
#[derive(Debug, Clone, PartialEq, Eq)]
pub struct TenantEventGroup {
    /// The tenant.
    pub tenant: TenantId,
    /// The events, in execution order.
    pub events: Vec<Event>,
}

/// Whether an event of a group belongs to another tenant than the group.
pub open spec fn misplaced(leg: TenantEventGroup, i: int) -> bool {
    0 <= i < leg.events@.len() && leg.events@[i].tenant_id.0@ != leg.tenant.0@
}

/// What is wrong with a misplaced event.
pub open spec fn misplaced_fault(leg: TenantEventGroup, i: int) -> Fault {
    Fault::Atomicity(
        "tenant mismatch in cross-tenant batch (event tenant `"@ + leg.events@[i].tenant_id.0@
            + "`, group tenant `"@ + leg.tenant.0@ + "`)"@,
    )
}

/// Whether a leg stays within its tenant and is one atomic unit.
pub open spec fn leg_sound(leg: TenantEventGroup) -> bool {
    (forall|i: int| !#[trigger] misplaced(leg, i)) && batch_sound(leg.events@)
}

/// Whether a fault is the first one of a leg.
pub open spec fn leg_fault(leg: TenantEventGroup, fault: Fault) -> bool {
    ||| exists|i: int|
        #[trigger] misplaced(leg, i) && (forall|j: int|
            0 <= j < i ==> !#[trigger] misplaced(leg, j)) && fault == misplaced_fault(leg, i)
    ||| (forall|i: int| !#[trigger] misplaced(leg, i)) && first_fault(leg.events@, fault)
}

/// Whether two legs of different tenants hold events of one intent.
pub open spec fn legs_linked(a: TenantEventGroup, b: TenantEventGroup) -> bool {
    a.tenant.0@ != b.tenant.0@ && exists|i: int, j: int|
        0 <= i < a.events@.len() && 0 <= j < b.events@.len() && (#[trigger] a.events@[i]).intent_id.0@
            == (#[trigger] b.events@[j]).intent_id.0@
}

/// Whether some intent ties legs of different tenants together.
pub open spec fn linked(groups: Seq<TenantEventGroup>) -> bool {
    exists|a: int, b: int|
        0 <= a < groups.len() && 0 <= b < groups.len() && legs_linked(
            #[trigger] groups[a],
            #[trigger] groups[b],
        )
}

/// Whether a cross-tenant transaction is consistent.
pub open spec fn cross_tenant_sound(groups: Seq<TenantEventGroup>) -> bool {
    (forall|g: int| 0 <= g < groups.len() ==> leg_sound(#[trigger] groups[g])) && linked(groups)
}

/// The fault of legs that no intent ties together.
pub open spec fn unlinked_fault() -> Fault {
    Fault::Atomicity("cross-tenant batch has no cross-tenant intent linkage"@)
}

/// Whether a fault is the first one of a cross-tenant transaction.
pub open spec fn cross_tenant_fault(groups: Seq<TenantEventGroup>, fault: Fault) -> bool {
    ||| exists|g: int|
        0 <= g < groups.len() && leg_fault(#[trigger] groups[g], fault) && (forall|h: int|
            0 <= h < g ==> leg_sound(#[trigger] groups[h]))
    ||| (forall|g: int| 0 <= g < groups.len() ==> leg_sound(#[trigger] groups[g])) && !linked(
        groups,
    ) && fault == unlinked_fault()
}

fn check_leg(leg: &TenantEventGroup) -> (r: Result<(), ExecutorError>)
    ensures
        match r {
            Ok(()) => leg_sound(*leg),
            Err(error) => exists|fault: Fault| #[trigger]
                reports(error, fault) && leg_fault(*leg, fault),
        },
{
    let mut i: usize = 0;
    while i < leg.events.len()
        invariant
            i <= leg.events@.len(),
            forall|j: int| 0 <= j < i ==> !#[trigger] misplaced(*leg, j),
        decreases leg.events@.len() - i,
    {
        if !leg.events[i].tenant_id.same(&leg.tenant) {
            assert(misplaced(*leg, i as int));
            let error = ExecutorError::AtomicityViolation(
                join5(
                    "tenant mismatch in cross-tenant batch (event tenant `",
                    leg.events[i].tenant_id.as_str(),
                    "`, group tenant `",
                    leg.tenant.as_str(),
                    "`)",
                ),
            );
            assert(reports(error, misplaced_fault(*leg, i as int)));
            assert(leg_fault(*leg, misplaced_fault(*leg, i as int)));
            return Err(error);
        }
        i = i + 1;
    }
    match validate_batch_consistency(leg.events.as_slice()) {
        Ok(()) => Ok(()),
        Err(error) => {
            proof {
                let fault = choose|fault: Fault| #[trigger]
                    reports(error, fault) && first_fault(leg.events@, fault);
                assert(leg_fault(*leg, fault));
            }
            Err(error)
        },
    }
}

fn are_linked(a: &TenantEventGroup, b: &TenantEventGroup) -> (r: bool)
    ensures
        r == legs_linked(*a, *b),
{
    if a.tenant.same(&b.tenant) {
        return false;
    }
    let mut i: usize = 0;
    while i < a.events.len()
        invariant
            a.tenant.0@ != b.tenant.0@,
            i <= a.events@.len(),
            forall|x: int, y: int|
                0 <= x < i && 0 <= y < b.events@.len() ==> (#[trigger] a.events@[x]).intent_id.0@
                    != (#[trigger] b.events@[y]).intent_id.0@,
        decreases a.events@.len() - i,
    {
        let mut j: usize = 0;
        while j < b.events.len()
            invariant
                a.tenant.0@ != b.tenant.0@,
                i < a.events@.len(),
                j <= b.events@.len(),
                forall|y: int|
                    0 <= y < j ==> a.events@[i as int].intent_id.0@
                        != (#[trigger] b.events@[y]).intent_id.0@,
            decreases b.events@.len() - j,
        {
            if a.events[i].intent_id.same(&b.events[j].intent_id) {
                assert(a.events@[i as int].intent_id.0@ == b.events@[j as int].intent_id.0@);
                return true;
            }
            j = j + 1;
        }
        i = i + 1;
    }
    false
}

fn any_linked(groups: &[TenantEventGroup]) -> (r: bool)
    ensures
        r == linked(groups@),
{
    let mut a: usize = 0;
    while a < groups.len()
        invariant
            a <= groups@.len(),
            forall|x: int, y: int|
                0 <= x < a && 0 <= y < groups@.len() ==> !legs_linked(
                    #[trigger] groups@[x],
                    #[trigger] groups@[y],
                ),
        decreases groups@.len() - a,
    {
        let mut b: usize = 0;
        while b < groups.len()
            invariant
                a < groups@.len(),
                b <= groups@.len(),
                forall|y: int|
                    0 <= y < b ==> !legs_linked(groups@[a as int], #[trigger] groups@[y]),
            decreases groups@.len() - b,
        {
            if are_linked(&groups[a], &groups[b]) {
                assert(legs_linked(groups@[a as int], groups@[b as int]));
                return true;
            }
            b = b + 1;
        }
        a = a + 1;
    }
    false
}

/// The error about legs that no intent ties together.
pub fn unlinked() -> (r: ExecutorError)
    ensures
        reports(r, unlinked_fault()),
{
    ExecutorError::AtomicityViolation(
        "cross-tenant batch has no cross-tenant intent linkage".to_owned(),
    )
}

/// Accepts the legs of a genuine cross-tenant transaction.
pub fn validate_cross_tenant_consistency(groups: &[TenantEventGroup]) -> (r: Result<
    (),
    ExecutorError,
>)
    ensures
        match r {
            Ok(()) => cross_tenant_sound(groups@),
            Err(error) => exists|fault: Fault| #[trigger]
                reports(error, fault) && cross_tenant_fault(groups@, fault),
        },
{
    let mut g: usize = 0;
    while g < groups.len()
        invariant
            g <= groups@.len(),
            forall|h: int| 0 <= h < g ==> leg_sound(#[trigger] groups@[h]),
        decreases groups@.len() - g,
    {
        match check_leg(&groups[g]) {
            Ok(()) => {},
            Err(error) => {
                proof {
                    let fault = choose|fault: Fault| #[trigger]
                        reports(error, fault) && leg_fault(groups@[g as int], fault);
                    assert(cross_tenant_fault(groups@, fault));
                }
                return Err(error);
            },
        }
        g = g + 1;
    }
    if any_linked(groups) {
        Ok(())
    } else {
        let error = unlinked();
        assert(reports(error, unlinked_fault()));
        Err(error)
    }
}

/// An accepted cross-tenant transaction has no fault.
pub proof fn law_sound_transactions_have_no_fault(groups: Seq<TenantEventGroup>)
    ensures
        cross_tenant_sound(groups) ==> forall|fault: Fault| !#[trigger] cross_tenant_fault(
            groups,
            fault,
        ),
{
    if cross_tenant_sound(groups) {
        assert forall|fault: Fault| !#[trigger] cross_tenant_fault(groups, fault) by {
            if cross_tenant_fault(groups, fault) {
                let g = choose|g: int|
                    0 <= g < groups.len() && leg_fault(#[trigger] groups[g], fault) && (forall|
                        h: int,
                    |
                        0 <= h < g ==> leg_sound(#[trigger] groups[h]));
                assert(leg_sound(groups[g]));
                assert(!exists|i: int| #[trigger] misplaced(groups[g], i));
                law_sound_batches_have_no_fault(groups[g].events@, fault);
            }
        }
    }
}

} // verus!
