//! What validation keeps of a submission, and which submissions it takes.
use vstd::prelude::*;

use crate::domain::digest::SignatureBlock;
use crate::domain::encoding::b64u;
use crate::domain::error::StateChronicleError;
use crate::domain::intent::Intent;
use crate::domain::laws::{count_of, law_kinds_of_state_have_names, name_of};
use crate::domain::state::{state_type_named, StateType};
use crate::intent::error::IntentError;
use crate::intent::raw::RawIntent;
use crate::intent::validate::{is_signature, validation, Instant};
use crate::intent::validated::{admission, identifier_complaint, IdempotencyKey, ValidatedIntent};
use crate::json::{depth, items_depth, members_depth, Json, Value};
use crate::text::control_char;

verus! {

/// Whether an idempotency key is made of an intent's own tenant, id, actor,
/// resource and operation.
pub open spec fn keyed_by(key: IdempotencyKey, intent: Intent) -> bool {
    &&& key.tenant_id.0@ == intent.tenant_id.0@
    &&& key.intent_id.0@ == intent.intent_id.0@
    &&& key.actor.0@ == intent.actor.0@
    &&& key.resource_id.0@ == intent.resource_id.0@
    &&& key.operation.0@ == intent.operation.0@
}

/// A validated intent says what was submitted, field by field, and is keyed by
/// its own tenant, id, actor, resource and operation.
pub proof fn law_validated_intents_say_what_was_submitted(
    validated: ValidatedIntent,
    raw: RawIntent,
    created: Instant,
    expires: Option<Instant>,
)
    requires
        validation(Ok(validated), raw, created, expires),
    ensures
        ({
            let intent = validated.intent;
            &&& intent.schema@ == "statechronicle.intent.v0"@
            &&& intent.tenant_id.0@ == raw.tenant_id@
            &&& intent.intent_id.0@ == raw.intent_id@
            &&& intent.operation.0@ == raw.operation@
            &&& intent.actor.0@ == raw.actor@
            &&& intent.resource_id.0@ == raw.resource_id@
            &&& intent.expected_version == raw.expected_version
            &&& intent.inputs@ == raw.inputs@
            &&& b64u(intent.nonce.bytes@) == raw.nonce@
            &&& intent.state_type is Some <==> raw.state_type is Some
            &&& intent.state_type is Some ==> raw.state_type->0@ == Json::Str(
                name_of(intent.state_type->0),
            )
            &&& intent.authority is Some <==> raw.authority is Some
            &&& intent.authority is Some ==> raw.authority->0 == Ok::<_, String>(
                intent.authority->0,
            )
            &&& created is Ok && intent.created_at == (created->Ok_0).0
            &&& intent.expires_at is Some <==> expires is Some
            &&& intent.expires_at is Some ==> expires->0 is Ok && intent.expires_at->0 == (
            expires->0->Ok_0).0
            &&& validated.signature is Some <==> raw.signature is Some
            &&& validated.signature is Some ==> {
                let block = validated.signature->0;
                let given = raw.signature->0;
                given.alg@ == "ed25519"@ && block.key_id.0@ == given.key_id@ && b64u(
                    block.sig.bytes@,
                ) == given.sig@
            }
            &&& keyed_by(validated.idempotency_key, intent)
        }),
{
    if let Some(value) = raw.state_type {
        if let Json::Str(name) = value@ {
            law_kinds_of_state_have_names(name, validated.intent.state_type->0);
        }
    }
}

/// Whether a submission is sound: of the supported schema, with an intent id in
/// form, a named operation, a readable nonce, a known kind of state if any, a
/// decoded authority proof if any, readable times of which the expiry is the
/// later, and a signature in form if any.
pub open spec fn sound_submission(
    raw: RawIntent,
    created: Instant,
    expires: Option<Instant>,
) -> bool {
    &&& raw.schema@ == "statechronicle.intent.v0"@
    &&& 4 < raw.intent_id@.len() <= 256
    &&& raw.intent_id@.take(4) == "int_"@
    &&& 1 <= raw.operation@.len() <= 256
    &&& exists|bytes: Seq<u8>| #[trigger] b64u(bytes) == raw.nonce@
    &&& raw.state_type is Some ==> exists|kind: StateType|
        raw.state_type->0@ == Json::Str(#[trigger] name_of(kind))
    &&& raw.authority is Some ==> raw.authority->0 is Ok
    &&& created is Ok
    &&& expires is Some ==> expires->0 is Ok && count_of((created->Ok_0).0) < count_of(
        (expires->0->Ok_0).0,
    )
    &&& raw.signature is Some ==> {
        let given = raw.signature->0;
        &&& given.alg@ == "ed25519"@
        &&& 1 <= given.key_id@.len() <= 256
        &&& exists|bytes: Seq<u8>| #[trigger] b64u(bytes) == given.sig@ && bytes.len() == 64
    }
}

/// A submission is validated exactly when it is sound.
pub proof fn law_sound_submissions_are_validated(
    r: Result<ValidatedIntent, IntentError>,
    raw: RawIntent,
    created: Instant,
    expires: Option<Instant>,
)
    requires
        validation(r, raw, created, expires),
    ensures
        r is Ok <==> sound_submission(raw, created, expires),
{
    reveal_strlit("int_");
    if let Some(value) = raw.state_type {
        if let Json::Str(name) = value@ {
            assert forall|kind: StateType| name == #[trigger] name_of(kind) implies
                state_type_named(name) == Some(kind) by {
                law_kinds_of_state_have_names(name, kind);
            }
            if let Some(kind) = state_type_named(name) {
                law_kinds_of_state_have_names(name, kind);
                assert(value@ == Json::Str(name_of(kind)));
            }
        }
    }
    if let Some(given) = raw.signature {
        assert(is_signature(given.sig@) <==> exists|bytes: Seq<u8>|
            #[trigger] b64u(bytes) == given.sig@ && bytes.len() == 64);
    }
    if raw.intent_id@.len() >= 4 {
        assert("int_"@.len() == 4);
    }
}

/// Whether an identifier is in form: not empty, bounded, and without control
/// characters.
pub open spec fn in_form(text: Seq<char>) -> bool {
    &&& 1 <= text.len() <= 256
    &&& forall|i: int|
        0 <= i < text.len() ==> !((#[trigger] text[i] as int) < 32 || 127 <= (text[i] as int)
            < 160)
}

/// A typed intent is admitted exactly when it is of the supported schema, its
/// tenant, actor and resource are in form, it expires after it was made, its
/// inputs are not nested too deeply, and its canonical form is not too large.
/// What is admitted is the intent itself.
pub proof fn law_sound_intents_are_admitted(
    r: Result<ValidatedIntent, IntentError>,
    intent: Intent,
    signature: Option<SignatureBlock>,
    canonical_size: Result<usize, StateChronicleError>,
)
    requires
        admission(r, intent, signature, canonical_size),
    ensures
        r is Ok <==> {
            &&& intent.schema@ == "statechronicle.intent.v0"@
            &&& in_form(intent.tenant_id.0@)
            &&& in_form(intent.actor.0@)
            &&& in_form(intent.resource_id.0@)
            &&& intent.expires_at is Some ==> count_of(intent.created_at) < count_of(
                intent.expires_at->0,
            )
            &&& members_depth(intent.inputs.entries@) <= 32
            &&& canonical_size is Ok
            &&& canonical_size->Ok_0 <= 65536
        },
        r is Ok ==> r->Ok_0.intent == intent && r->Ok_0.signature == signature && keyed_by(
            r->Ok_0.idempotency_key,
            intent,
        ),
{
    lemma_identifier("tenant"@, intent.tenant_id.0@);
    lemma_identifier("actor"@, intent.actor.0@);
    lemma_identifier("resource"@, intent.resource_id.0@);
}

proof fn lemma_identifier(name: Seq<char>, text: Seq<char>)
    ensures
        identifier_complaint(name, text) is None <==> in_form(text),
{
    if in_form(text) {
        assert(forall|i: int|
            0 <= i < text.len() ==> !control_char(#[trigger] text[i]));
    }
    if identifier_complaint(name, text) is None {
        assert forall|i: int| 0 <= i < text.len() implies !((#[trigger] text[i] as int) < 32
            || 127 <= (text[i] as int) < 160) by {
            assert(!control_char(text[i]));
        }
    }
}

/// Inputs are as deep as their deepest value, and a value that holds others is
/// deeper than each of them.
pub proof fn law_depth_counts_nesting(entries: Seq<(String, Value)>, items: Vec<Value>, n: nat)
    ensures
        members_depth(entries) <= n <==> forall|i: int|
            0 <= i < entries.len() ==> depth((#[trigger] entries[i]).1) <= n,
        forall|i: int|
            0 <= i < items@.len() ==> depth(#[trigger] items@[i]) < depth(Value::Array(items)),
    decreases entries.len(),
{
    if entries.len() > 0 {
        let rest = entries.drop_last();
        law_depth_counts_nesting(rest, items, n);
        assert(entries[entries.len() - 1] == entries.last());
        if members_depth(rest) <= n {
            assert forall|i: int| 0 <= i < rest.len() implies depth((#[trigger] entries[i]).1)
                <= n by {
                assert(rest[i] == entries[i]);
            }
        }
        if forall|i: int| 0 <= i < entries.len() ==> depth((#[trigger] entries[i]).1) <= n {
            assert forall|i: int| 0 <= i < rest.len() implies depth((#[trigger] rest[i]).1)
                <= n by {
                assert(rest[i] == entries[i]);
            }
        }
    }
    assert forall|i: int| 0 <= i < items@.len() implies depth(#[trigger] items@[i]) < depth(
        Value::Array(items),
    ) by {
        lemma_items_depth(items@, i);
    }
}

proof fn lemma_items_depth(items: Seq<Value>, i: int)
    requires
        0 <= i < items.len(),
    ensures
        depth(items[i]) <= items_depth(items),
    decreases items.len(),
{
    if i < items.len() - 1 {
        assert(items.drop_last()[i] == items[i]);
        lemma_items_depth(items.drop_last(), i);
    }
}

} // verus!
