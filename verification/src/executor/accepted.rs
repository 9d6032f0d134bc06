//! What an execution's outcome tells about the intent.
//!
//! An execution answers in one of three ways: with events, with nothing (a
//! replay), or with a refusal. The laws here say what each answer means in
//! terms of the intent and of what was found outside.
use vstd::prelude::*;

use crate::amount::amount_of;
use crate::domain::event::Event;
use crate::domain::intent::{
    AggregationPolicy, AuthorityProof, EvaluationResult, Intent, TrustGrantOutcome,
};
use crate::domain::laws::count_of;
use crate::domain::state::{StateProjection, StateType};
use crate::executor::authority::{allowed, allows, unavailable_in};
use crate::executor::complete::{authorized, concluded, current_state, executed, Outcome, Replies};
use crate::executor::conflict::available;
use crate::executor::error::ExecutorError;
use crate::executor::execution::{by_ref, Run};
use crate::executor::laws::{
    law_transfers_stay_within_their_type, lemma_amount_reads_back, lemma_field_names,
};
use crate::executor::lifecycle::{amount_given, amount_under, text_given, text_under};
use crate::executor::names::lemma_operation_names;
use crate::executor::transition::{after_state, credited_state, payload_of};
use crate::json::{as_text, lookup, member, Json};
use crate::ports::errors::{IntentStoreError, TenantStoreError, TrustGrantError};

verus! {

/// Whether two intents ask for the same: they agree in every field.
pub open spec fn ask_the_same(a: Intent, b: Intent) -> bool {
    &&& a.schema@ == b.schema@
    &&& a.tenant_id.0@ == b.tenant_id.0@
    &&& a.intent_id.0@ == b.intent_id.0@
    &&& a.actor.0@ == b.actor.0@
    &&& a.operation.0@ == b.operation.0@
    &&& a.resource_id.0@ == b.resource_id.0@
    &&& a.state_type == b.state_type
    &&& a.expected_version == b.expected_version
    &&& a.inputs@ == b.inputs@
    &&& a.created_at == b.created_at
    &&& a.expires_at == b.expires_at
    &&& a.nonce.bytes@ == b.nonce.bytes@
    &&& a.authority is Some == b.authority is Some
    &&& a.authority is Some ==> {
        let x = a.authority->0;
        let y = b.authority->0;
        &&& x.kind@ == y.kind@
        &&& x.evaluation_digest.bytes@ == y.evaluation_digest.bytes@
        &&& x.result == y.result
        &&& x.evaluated_at == y.evaluated_at
    }
}

/// An execution that ends without events and without an error is a replay: an
/// intent is stored under the id, and the two ask for the same.
pub proof fn law_silence_means_a_replay(r: Outcome, run: Run, w: Replies)
    requires
        executed(r, run, w),
        r is Ok,
        r->Ok_0@.len() == 0,
    ensures
        w.entry.existing is Ok,
        w.entry.existing->Ok_0 is Some,
        ask_the_same(w.entry.existing->Ok_0->0, *run.intent),
{
}

/// An intent whose id is taken by one that asks for something else comes to
/// nothing: there are no events, and where nothing else stops it before, it is
/// refused as a duplicate of its own id.
pub proof fn law_reused_ids_are_refused(r: Outcome, run: Run, w: Replies, stored: Intent)
    requires
        executed(r, run, w),
        w.entry.existing == Ok::<Option<Intent>, IntentStoreError>(Some(stored)),
        !ask_the_same(stored, *run.intent),
    ensures
        r is Err,
        run.intent.operation.0@ != "trade.settle"@ && w.entry.size is Ok && w.entry.size->Ok_0
            <= 65536 && run.intent.expires_at is None ==> (r matches Err(
            ExecutorError::DuplicateIntent { intent_id },
        ) && intent_id@ == run.intent.intent_id.0@),
{
}

/// A repeated intent that asks for the same as the stored one is taken for a
/// replay, as long as it has not expired.
pub proof fn law_repeated_intents_are_replays(r: Outcome, run: Run, w: Replies, stored: Intent)
    requires
        executed(r, run, w),
        w.entry.existing == Ok::<Option<Intent>, IntentStoreError>(Some(stored)),
        ask_the_same(stored, *run.intent),
        run.intent.operation.0@ != "trade.settle"@,
        w.entry.size is Ok,
        w.entry.size->Ok_0 <= 65536,
        run.intent.expires_at is Some ==> count_of(w.entry.now) < count_of(
            run.intent.expires_at->0,
        ),
    ensures
        r is Ok,
        r->Ok_0@.len() == 0,
{
}

/// What has to hold before an intent can be accepted.
pub open spec fn cleared(run: Run, w: Replies) -> bool {
    let intent = *run.intent;
    &&& w.entry.size is Ok && w.entry.size->Ok_0 <= 65536
    &&& intent.expires_at is Some ==> count_of(w.entry.now) < count_of(intent.expires_at->0)
    &&& w.entry.existing is Ok && w.entry.existing->Ok_0 is None
    &&& run.signature is Some ==> w.entry.verified is Ok
    &&& intent.authority is Some && run.authorities > 0 ==> w.entry.fresh is Ok
    &&& intent.tenant_id.0@.len() > 0
    &&& w.entry.known == Ok::<bool, TenantStoreError>(true)
    &&& intent.state_type is Some
    &&& intent.operation.0@ == "trade.settle"@ && !run.allow_value_legs ==> {
        &&& lookup(intent.inputs@, "value_resource"@) is None
        &&& lookup(intent.inputs@, "value_amount"@) is None
        &&& lookup(intent.inputs@, "value_to_subject"@) is None
    }
}

/// The verdict of an authority that permits the operation.
pub open spec fn permits(reply: Result<TrustGrantOutcome, TrustGrantError>) -> bool {
    match reply {
        Ok(outcome) => outcome.result == EvaluationResult::Allow,
        Err(_) => false,
    }
}

/// Whether the authorities back an intent, and what comes of it is recorded.
pub open spec fn backed(run: Run, w: Replies, recorded: Option<AuthorityProof>) -> bool {
    let replies = w.authority.evaluations@;
    &&& w.authority.rules is Some
    &&& match run.intent.authority {
        None => recorded is None && !w.authority.rules->0.requires_authority,
        Some(_) => {
            &&& recorded is Some
            &&& run.authorities > 0
            &&& w.authority.fresh is Ok
            &&& recorded->0.kind@ == "trustgrant.evaluation"@
            &&& recorded->0.evaluation_digest == w.authority.aggregate
            &&& recorded->0.result == EvaluationResult::Allow
            &&& exists|i: int|
                0 <= i < replies.len() && permits(#[trigger] replies[i]) && recorded->0.evaluated_at
                    == replies[i]->Ok_0.evaluated_at
            &&& forall|i: int|
                0 <= i < replies.len() && permits(#[trigger] replies[i]) ==> count_of(
                    recorded->0.evaluated_at,
                ) <= count_of(replies[i]->Ok_0.evaluated_at)
            &&& w.authority.rules->0.policy == AggregationPolicy::RequireAll ==> forall|i: int|
                0 <= i < replies.len() ==> permits(#[trigger] replies[i])
        },
    }
}

/// Whether an outcome is that of one of the replies that permit.
spec fn permitted(
    replies: Seq<Result<TrustGrantOutcome, TrustGrantError>>,
    outcome: TrustGrantOutcome,
) -> bool {
    exists|i: int|
        0 <= i < replies.len() && permits(#[trigger] replies[i]) && replies[i]->Ok_0 == outcome
}

/// The outcomes of permitting authorities are those that permit.
proof fn lemma_allowed(replies: Seq<Result<TrustGrantOutcome, TrustGrantError>>)
    ensures
        forall|k: int|
            0 <= k < allowed(replies).len() ==> permitted(replies, #[trigger] allowed(replies)[k]),
        forall|i: int|
            0 <= i < replies.len() && permits(#[trigger] replies[i]) ==> allowed(replies).contains(
                replies[i]->Ok_0,
            ),
    decreases replies.len(),
{
    if replies.len() > 0 {
        let rest = replies.drop_last();
        lemma_allowed(rest);
        let last = replies.len() - 1;
        assert forall|k: int| 0 <= k < allowed(replies).len() implies permitted(
            replies,
            #[trigger] allowed(replies)[k],
        ) by {
            if k < allowed(rest).len() {
                assert(allowed(replies)[k] == allowed(rest)[k]);
                assert(permitted(rest, allowed(rest)[k]));
                let i = choose|i: int|
                    0 <= i < rest.len() && permits(#[trigger] rest[i]) && rest[i]->Ok_0 == allowed(
                        rest,
                    )[k];
                assert(replies[i] == rest[i]);
            } else {
                assert(permits(replies[last]));
            }
        }
        assert forall|i: int| 0 <= i < replies.len() && permits(#[trigger] replies[i]) implies
            allowed(replies).contains(replies[i]->Ok_0) by {
            if i < last {
                assert(rest[i] == replies[i]);
                let k = choose|k: int|
                    0 <= k < allowed(rest).len() && allowed(rest)[k] == replies[i]->Ok_0;
                assert(allowed(replies)[k] == replies[i]->Ok_0);
            } else {
                assert(allowed(replies)[allowed(replies).len() - 1] == replies[last]->Ok_0);
            }
        }
    }
}

/// The state that an intent is executed on, given what was found under the
/// acting subject or the resource: a resource that is kept under its holder is
/// taken under the holder that it names.
pub open spec fn found(run: Run, w: Replies) -> Option<StateProjection> {
    let first = w.state.loaded->Ok_0;
    let kept_by_holder = match run.intent.state_type->0 {
        StateType::ConsumableStack
        | StateType::FungibleBalance
        | StateType::Entitlement
        | StateType::MeteredResource => true,
        _ => false,
    };
    match first {
        Some(projection) => if kept_by_holder && projection.state.state_type.subject_held() && (
        as_text(member(projection.state.payload@, "subject"@)) matches Some(holder) && holder.len()
            > 0 && holder != run.intent.actor.0@) {
            w.state.reloaded->Ok_0
        } else {
            first
        },
        None => None,
    }
}

/// Events come only of an intent that was cleared at the entry, backed by the
/// authorities, expected the version of the state it was executed on, and
/// satisfied the profile's rules; where the id is claimed, the claim succeeded.
pub proof fn law_events_mean_acceptance(r: Outcome, run: Run, w: Replies)
    requires
        executed(r, run, w),
        r is Ok,
        r->Ok_0@.len() > 0,
    ensures
        cleared(run, w),
        backed(run, w, r->Ok_0@[0].authority),
        w.events.verdict is Ok,
        run.persist_intent ==> w.events.claimed is Ok,
        w.state.loaded is Ok,
        run.intent.expected_version == match found(run, w) {
            Some(projection) => projection.version,
            None => 0,
        },
{
    let state_type = run.intent.state_type->0;
    let current = current_state(run, state_type, w.state)->Ok_0;
    let authority = choose|authority: Option<AuthorityProof>| #[trigger]
        authorized(run, w.authority, authority) && concluded(
            r,
            run,
            state_type,
            current,
            authority,
            w.events,
        );
    assert(r->Ok_0@[0].authority == authority);
    let replies = w.authority.evaluations@;
    lemma_allowed(replies);
    assert(forall|i: int|
        0 <= i < replies.len() ==> (permits(#[trigger] replies[i]) <==> allows(replies[i])));
    if authority is Some {
        let bound = authority->0;
        let k = choose|k: int|
            0 <= k < allowed(replies).len() && (#[trigger] allowed(replies)[k]).evaluated_at
                == bound.evaluated_at;
        assert(permitted(replies, allowed(replies)[k]));
        let i = choose|i: int|
            0 <= i < replies.len() && permits(#[trigger] replies[i]) && replies[i]->Ok_0 == allowed(
                replies,
            )[k];
        assert(permits(replies[i]) && bound.evaluated_at == replies[i]->Ok_0.evaluated_at);
        assert forall|j: int| 0 <= j < replies.len() && permits(#[trigger] replies[j]) implies
            count_of(bound.evaluated_at) <= count_of(replies[j]->Ok_0.evaluated_at) by {
            assert(allowed(replies).contains(replies[j]->Ok_0));
            let m = choose|m: int|
                0 <= m < allowed(replies).len() && allowed(replies)[m] == replies[j]->Ok_0;
            assert(!allowed(replies)[m].evaluated_at.precedes(bound.evaluated_at));
        }
    }
}

/// Whether an event records what an intent asked for.
pub open spec fn records_intent(event: Event, run: Run) -> bool {
    &&& event.schema@ == "statechronicle.event.v0"@
    &&& event.tenant_id.0@ == run.intent.tenant_id.0@
    &&& event.intent_id.0@ == run.intent.intent_id.0@
    &&& event.operation.0@ == run.intent.operation.0@
    &&& event.resource_id.0@ == run.intent.resource_id.0@
    &&& event.actor.0@ == run.intent.actor.0@
    &&& event.executor.0@ == run.executor.0@
    &&& event.after.version == event.before.version + 1
}

/// The events of an accepted intent record what it asked for, and lead from the
/// state that it was executed on, at the version that it expected, to the next
/// version. There are two events exactly where a stack or a balance is
/// transferred, with the same authority on both.
pub proof fn law_events_record_the_intent(r: Outcome, run: Run, w: Replies)
    requires
        executed(r, run, w),
        r is Ok,
        r->Ok_0@.len() > 0,
    ensures
        r->Ok_0@.len() == if run.intent.operation.0@ == "stack.transfer"@
            || run.intent.operation.0@ == "balance.transfer"@ {
            2int
        } else {
            1int
        },
        forall|i: int| 0 <= i < r->Ok_0@.len() ==> records_intent(#[trigger] r->Ok_0@[i], run),
        r->Ok_0@.len() == 2 ==> r->Ok_0@[1].authority == r->Ok_0@[0].authority,
        ({
            let event = r->Ok_0@[0];
            &&& event.event_id == w.events.seal.event_id
            &&& event.created_at == w.events.seal.created_at
            &&& w.events.seal.after_hash is Ok
            &&& event.after.state_hash == w.events.seal.after_hash->Ok_0
            &&& event.before.version == run.intent.expected_version
            &&& match found(run, w) {
                Some(projection) => event.before.state_hash == projection.state_hash
                    && event.before.state.payload@ == projection.state.payload@
                    && event.before.state.state_type == projection.state.state_type,
                None => w.events.seal.before_hash is Ok && event.before.state_hash
                    == w.events.seal.before_hash->Ok_0 && event.before.state.payload@
                    == Json::Object(Map::empty()) && Some(event.before.state.state_type)
                    == run.intent.state_type,
            }
            &&& after_state(by_ref(found(run, w)), run.intent.operation.0@, run.intent.inputs@)
                == Ok::<Json, Seq<char>>(event.after.state.payload@)
        }),
        r->Ok_0@.len() == 2 ==> {
            let event = r->Ok_0@[1];
            &&& event.event_id == w.events.destination_seal.event_id
            &&& event.created_at == w.events.destination_seal.created_at
            &&& w.events.destination is Ok
            &&& event.before.version == match w.events.destination->Ok_0 {
                Some(projection) => projection.version,
                None => 0,
            }
            &&& w.events.destination_seal.after_hash is Ok
            &&& event.after.state_hash == w.events.destination_seal.after_hash->Ok_0
        },
{
    let state_type = run.intent.state_type->0;
    let current = current_state(run, state_type, w.state)->Ok_0;
    let authority = choose|authority: Option<AuthorityProof>| #[trigger]
        authorized(run, w.authority, authority) && concluded(
            r,
            run,
            state_type,
            current,
            authority,
            w.events,
        );
    assert(r->Ok_0@[0].authority == authority);
    assert(current == found(run, w));
}

/// The amount under a field of a payload, zero where there is none.
pub open spec fn amount_or_zero(payload: Json, field: Seq<char>) -> Option<u128> {
    match member(payload, field) {
        Some(Json::Str(text)) => amount_of(text),
        Some(_) => None,
        None => Some(0),
    }
}

/// An accepted transfer moves exactly the amount given: what the source loses
/// the destination gains, in the source's unit, and the destination is held by
/// the subject that the inputs name.
pub proof fn law_transfers_move_the_amount_given(
    r: Outcome,
    run: Run,
    w: Replies,
    field: Seq<char>,
    key: Seq<char>,
)
    requires
        executed(r, run, w),
        r is Ok,
        r->Ok_0@.len() == 2,
        run.intent.operation.0@ == "stack.transfer"@ ==> field == "quantity"@ && key
            == "quantity"@,
        run.intent.operation.0@ == "balance.transfer"@ ==> field == "balance"@ && key
            == "amount"@,
    ensures
        ({
            let source = r->Ok_0@[0];
            let destination = r->Ok_0@[1];
            let moved = amount_given(run.intent.inputs@, key);
            &&& moved is Some
            &&& amount_under(source.before.state.payload@, field) is Some
            &&& amount_under(source.after.state.payload@, field) is Some
            &&& amount_or_zero(destination.before.state.payload@, field) is Some
            &&& amount_under(destination.after.state.payload@, field) is Some
            &&& amount_under(source.before.state.payload@, field)->0 - amount_under(
                source.after.state.payload@,
                field,
            )->0 == moved->0
            &&& amount_under(destination.after.state.payload@, field)->0 - amount_or_zero(
                destination.before.state.payload@,
                field,
            )->0 == moved->0
            &&& text_under(destination.after.state.payload@, "subject"@) == text_given(
                run.intent.inputs@,
                "to_subject"@,
            )
            &&& text_under(destination.after.state.payload@, "unit"@) == text_under(
                source.before.state.payload@,
                "unit"@,
            )
            &&& text_under(source.after.state.payload@, "subject"@) == text_under(
                source.before.state.payload@,
                "subject"@,
            )
        }),
{
    let state_type = run.intent.state_type->0;
    let current = current_state(run, state_type, w.state)->Ok_0;
    let op = run.intent.operation.0@;
    let authority = choose|authority: Option<AuthorityProof>| #[trigger]
        authorized(run, w.authority, authority) && concluded(
            r,
            run,
            state_type,
            current,
            authority,
            w.events,
        );
    lemma_field_names();
    lemma_operation_names();
    let source = current->0;
    let destination = w.events.destination->Ok_0;
    let received = r->Ok_0@[1].after.state.payload@;
    assert(credited_state(
        source.state.payload@,
        payload_of(by_ref(destination)),
        op,
        run.intent.inputs@,
    ) == Ok::<Json, Seq<char>>(received));
    law_transfers_stay_within_their_type(
        source.state_type,
        Some(source.state.payload@),
        op,
        run.intent.inputs@,
    );
    let moved = amount_given(run.intent.inputs@, key)->0;
    let held = amount_under(source.state.payload@, field)->0;
    let had = amount_or_zero(r->Ok_0@[1].before.state.payload@, field)->0;
    lemma_amount_reads_back((held - moved) as u128, field);
    lemma_amount_reads_back((had + moved) as u128, field);
}

/// Whether what is known of a resource lets an intent through: it expected the
/// version, declares no other owner than the recorded one, and the status is
/// open to the operation.
pub open spec fn unopposed(run: Run, current: Option<StateProjection>) -> bool {
    match current {
        None => run.intent.expected_version == 0,
        Some(projection) => {
            let declared = as_text(lookup(run.intent.inputs@, "from_owner"@));
            let owner = as_text(member(projection.state.payload@, "owner"@));
            let holder = as_text(member(projection.state.payload@, "subject"@));
            &&& run.intent.expected_version == projection.version
            &&& declared is Some && owner is Some ==> declared == owner
            &&& declared is Some && owner is None && holder is Some ==> declared == holder
            &&& available(projection, run.intent.operation.0@)
        },
    }
}

/// An intent that is cleared at the entry, unopposed, backed by authorities
/// that all permit it or needs none, and within the profile's rules is
/// accepted, if it has an after-state; and what was found in its way otherwise
/// would have stopped it.
pub proof fn law_nothing_else_stops_an_intent(r: Outcome, run: Run, w: Replies)
    requires
        executed(r, run, w),
        cleared(run, w),
        w.state.loaded is Ok,
        w.state.reloaded is Ok,
        w.authority.rules is Some,
        match run.intent.authority {
            None => !w.authority.rules->0.requires_authority,
            Some(_) => run.authorities > 0 && w.authority.fresh is Ok
                && w.authority.evaluations@.len() > 0 && forall|i: int|
                0 <= i < w.authority.evaluations@.len() ==> permits(
                    #[trigger] w.authority.evaluations@[i],
                ),
        },
        w.events.verdict is Ok,
        after_state(
            by_ref(found(run, w)),
            run.intent.operation.0@,
            run.intent.inputs@,
        ) is Ok,
        run.intent.expected_version < u64::MAX,
        w.events.seal.before_hash is Ok,
        w.events.seal.after_hash is Ok,
        run.intent.operation.0@ != "stack.transfer"@,
        run.intent.operation.0@ != "balance.transfer"@,
        run.persist_intent ==> w.events.claimed is Ok,
    ensures
        r is Ok && r->Ok_0@.len() > 0 <==> unopposed(run, found(run, w)),
{
    let state_type = run.intent.state_type->0;
    let current = current_state(run, state_type, w.state)->Ok_0;
    assert(current == found(run, w));
    let replies = w.authority.evaluations@;
    if run.intent.authority is Some {
        assert(permits(replies[0]));
        assert forall|i: int| 0 <= i < replies.len() implies allows(#[trigger] replies[i]) by {
            assert(permits(replies[i]));
        }
    }
}

/// What stops an intent at the entry is named: each refusal says what was
/// wrong, where nothing before it was.
pub proof fn law_entry_refusals_name_the_cause(r: Outcome, run: Run, w: Replies)
    requires
        executed(r, run, w),
        run.intent.operation.0@ != "trade.settle"@,
        w.entry.size is Ok,
    ensures
        w.entry.size->Ok_0 > 65536 ==> r is Err && r->Err_0 is SizeLimitExceeded,
        w.entry.size->Ok_0 <= 65536 && run.intent.expires_at is Some && count_of(
            run.intent.expires_at->0,
        ) <= count_of(w.entry.now) ==> (r matches Err(ExecutorError::Expired { intent_id })
            && intent_id@ == run.intent.intent_id.0@),
        w.entry.size->Ok_0 <= 65536 && run.intent.expires_at is None && w.entry.existing == Ok::<
            Option<Intent>,
            IntentStoreError,
        >(None) ==> {
            if run.signature is Some && w.entry.verified is Err {
                r == Err::<Vec<Event>, ExecutorError>(w.entry.verified->Err_0)
            } else if run.intent.authority is None {
                if run.intent.tenant_id.0@.len() == 0 {
                    r is Err && r->Err_0 is TenantScopeMissing
                } else if w.entry.known == Ok::<bool, TenantStoreError>(false) {
                    r matches Err(ExecutorError::TenantNotFound { tenant }) && tenant@
                        == run.intent.tenant_id.0@
                } else {
                    w.entry.known is Ok && run.intent.state_type is None ==> r is Err
                        && r->Err_0 is StateTypeRequired
                }
            } else {
                true
            }
        },
{
}

/// What stops an intent at the conflict gates is named: another version than
/// the expected one, a missing resource, another owner than the declared one,
/// or a status that blocks the operation.
pub proof fn law_gate_refusals_name_the_cause(r: Outcome, run: Run, w: Replies)
    requires
        executed(r, run, w),
        cleared(run, w),
        w.state.loaded is Ok,
        w.state.reloaded is Ok,
    ensures
        match found(run, w) {
            None => run.intent.expected_version > 0 ==> (r matches Err(
                ExecutorError::ResourceNotFound { resource },
            ) && resource@ == run.intent.resource_id.0@),
            Some(projection) => {
                let declared = as_text(lookup(run.intent.inputs@, "from_owner"@));
                let owner = as_text(member(projection.state.payload@, "owner"@));
                if run.intent.expected_version != projection.version {
                    r matches Err(
                        ExecutorError::ExpectedVersionMismatch { resource, expected, actual },
                    ) && resource@ == run.intent.resource_id.0@ && expected
                        == run.intent.expected_version && actual == projection.version
                } else if declared is Some && owner is Some && declared != owner {
                    r matches Err(ExecutorError::ActorMismatch { expected, actual }) && expected@
                        == owner->0 && actual@ == declared->0
                } else {
                    declared is None && !available(projection, run.intent.operation.0@) ==> (
                    r matches Err(ExecutorError::ResourceLocked { resource }) && resource@
                        == projection.resource_id.0@)
                }
            },
        },
{
    assert(current_state(run, run.intent.state_type->0, w.state)->Ok_0 == found(run, w));
}

/// What stops an intent for want of authority is named. With every authority
/// heard, one that could not answer outweighs a stale one, and a stale one
/// outweighs a denial.
pub proof fn law_authority_refusals_name_the_cause(r: Outcome, run: Run, w: Replies, i: int)
    requires
        executed(r, run, w),
        cleared(run, w),
        w.state.loaded is Ok,
        w.state.reloaded is Ok,
        unopposed(run, found(run, w)),
        w.authority.rules is Some,
    ensures
        run.intent.authority is None && w.authority.rules->0.requires_authority ==> (r matches Err(
            ExecutorError::AuthorityMissing { operation },
        ) && operation@ == run.intent.operation.0@),
        run.intent.authority is Some && run.authorities == 0 ==> r is Err
            && r->Err_0 is AuthorityUnavailable,
        run.intent.authority is Some && run.authorities > 0 && 0 <= i
            < w.authority.evaluations@.len() && !permits(w.authority.evaluations@[i])
            && w.authority.rules->0.policy == AggregationPolicy::RequireAll ==> {
            let replies = w.authority.evaluations@;
            &&& r is Err
            &&& r->Err_0 is AuthorityUnavailable <==> exists|k: int|
                0 <= k < replies.len() && (#[trigger] replies[k]) is Err
                    && replies[k]->Err_0 is Unavailable
            &&& r->Err_0 is AuthorityUnavailable || r->Err_0 is AuthorityStale
                || r->Err_0 is AuthorityDenied
            &&& r->Err_0 is AuthorityDenied ==> forall|k: int|
                0 <= k < replies.len() && (#[trigger] replies[k]) is Err
                    ==> replies[k]->Err_0 is Denied
        },
{
    let current = current_state(run, run.intent.state_type->0, w.state)->Ok_0;
    assert(current == found(run, w));
    let replies = w.authority.evaluations@;
    lemma_unavailable(replies);
    if 0 <= i < replies.len() && !permits(replies[i]) {
        assert(!allows(replies[i]));
    }
}

proof fn lemma_unavailable(replies: Seq<Result<TrustGrantOutcome, TrustGrantError>>)
    ensures
        unavailable_in(replies) is Some <==> exists|k: int|
            0 <= k < replies.len() && (#[trigger] replies[k]) is Err
                && replies[k]->Err_0 is Unavailable,
    decreases replies.len(),
{
    if replies.len() > 0 {
        let rest = replies.drop_last();
        let last = replies.len() - 1;
        lemma_unavailable(rest);
        assert(replies[last] == replies.last());
        if exists|k: int|
            0 <= k < rest.len() && (#[trigger] rest[k]) is Err && rest[k]->Err_0 is Unavailable {
            let k = choose|k: int|
                0 <= k < rest.len() && (#[trigger] rest[k]) is Err
                    && rest[k]->Err_0 is Unavailable;
            assert(replies[k] == rest[k]);
        }
        if exists|k: int|
            0 <= k < replies.len() && (#[trigger] replies[k]) is Err
                && replies[k]->Err_0 is Unavailable {
            let k = choose|k: int|
                0 <= k < replies.len() && (#[trigger] replies[k]) is Err
                    && replies[k]->Err_0 is Unavailable;
            if k < last {
                assert(rest[k] == replies[k]);
            }
        }
    }
}

/// A settlement that declares anything of a value leg is not executed on its
/// own: it is sent back to the settlement route, whatever else holds of it.
pub proof fn law_value_legs_need_their_route(r: Outcome, run: Run, w: Replies)
    requires
        executed(r, run, w),
        run.intent.operation.0@ == "trade.settle"@,
        !run.allow_value_legs,
        lookup(run.intent.inputs@, "value_resource"@) is Some || lookup(
            run.intent.inputs@,
            "value_amount"@,
        ) is Some || lookup(run.intent.inputs@, "value_to_subject"@) is Some,
    ensures
        r matches Err(ExecutorError::ValueLegSettleRouting { intent_id }) && intent_id@
            == run.intent.intent_id.0@,
{
}

} // verus!
