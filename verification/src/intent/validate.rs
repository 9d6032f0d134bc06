//! Validation of submitted intents.
//!
//! The checks come in a fixed order: the schema; the intent id, the operation,
//! the signing key and the nonce; the state type and the authority proof; the
//! times, with the expiry strictly after the creation; and the signature. The
//! first failing check decides the error.
use vstd::prelude::*;

use crate::domain::digest::{Signature, SignatureAlg, SignatureBlock};
use crate::domain::encoding::{b64u, from_b64u, is_b64u, law_b64u_is_injective};
use crate::domain::error::{DomainError, StateChronicleError};
use crate::domain::ids::{
    valid_id, valid_name, IntentId, KeyId, Operation, ResourceId, SubjectId, TenantId,
};
use crate::domain::intent::{same_intent, AuthorityProof, Intent, Nonce, INTENT_SCHEMA};
use crate::domain::state::{state_type_named, StateType};
use crate::domain::time::{
    expired, instant_named, read_timestamp, reading, Reading, Timestamp,
};
use crate::intent::error::IntentError;
use crate::intent::raw::{RawIntent, RawSignature};
use crate::intent::validated::{
    admission, field_refused, keys_intent, IdempotencyKey, ValidatedIntent,
};
use crate::json::{Json, Value};
use crate::text::{join2, join3, join5, join6, same_text};

verus! {

/// The only supported signature algorithm.
pub const ED25519: &'static str = "ed25519";

/// The state type that a submitted value names.
pub open spec fn state_type_in(value: Json) -> Option<StateType> {
    match value {
        Json::Str(name) => state_type_named(name),
        _ => None,
    }
}

/// Why a submitted value names no state type, in this library's own words.
pub open spec fn state_type_complaint(value: Json) -> Seq<char> {
    match value {
        Json::Str(name) => "invalid state_type: unknown variant `"@ + name + "`"@,
        _ => "invalid state_type: expected a string"@,
    }
}

/// Decodes a submitted state type.
pub fn parse_state_type(value: &Value) -> (r: Result<StateType, IntentError>)
    ensures
        match state_type_in(value@) {
            Some(state_type) => r == Ok::<StateType, IntentError>(state_type),
            None => field_refused(r, state_type_complaint(value@)),
        },
{
    match value {
        Value::String(name) => match StateType::from_name(name.as_str()) {
            Some(state_type) => Ok(state_type),
            None => Err(
                IntentError::InvalidField(
                    join3("invalid state_type: unknown variant `", name.as_str(), "`"),
                ),
            ),
        },
        _ => Err(IntentError::InvalidField("invalid state_type: expected a string".to_owned())),
    }
}

/// Why a text of a time field names no instant.
pub open spec fn time_complaint(field: Seq<char>, value: Seq<char>, refusal: Seq<char>) -> Seq<
    char,
> {
    "invalid "@ + field + " `"@ + value + "`: "@ + refusal
}

/// The instant of a time field, given what was read in it.
pub fn parse_timestamp(field: &str, value: &str, read: Reading) -> (r: Result<
    (Timestamp, String),
    IntentError,
>)
    ensures
        match reading(read) {
            Ok(instant) => r matches Ok(parsed) && parsed.0 == instant.0 && parsed.1@ == instant.1,
            Err(refusal) => field_refused(r, time_complaint(field@, value@, refusal)),
        },
{
    match read {
        Ok(instant) => Ok(instant),
        Err(refusal) => Err(
            IntentError::InvalidField(
                join6("invalid ", field, " `", value, "`: ", refusal.as_str()),
            ),
        ),
    }
}

/// Whether a text is the `b64u:` text of a signature.
pub open spec fn is_signature(text: Seq<char>) -> bool {
    exists|bytes: Seq<u8>| #[trigger] b64u(bytes) == text && bytes.len() == 64
}

/// What comes of a submitted signature: its algorithm, key and bytes are
/// checked in this order.
pub open spec fn signature_parsed(r: Result<SignatureBlock, IntentError>, raw: RawSignature) -> bool {
    if raw.alg@ != ED25519@ {
        field_refused(r, alg_complaint(raw))
    } else if !valid_name(raw.key_id@) {
        r matches Err(IntentError::Domain(DomainError::InvalidKeyId(text))) && text@ == raw.key_id@
    } else if !is_signature(raw.sig@) {
        field_refused(r, bytes_complaint(raw))
    } else {
        r matches Ok(block) && stands_for(block, raw)
    }
}

/// The refusal of an algorithm.
pub open spec fn alg_complaint(raw: RawSignature) -> Seq<char> {
    "unsupported signature alg `"@ + raw.alg@ + "`"@
}

/// The refusal of signature bytes, in this library's own words.
pub open spec fn bytes_complaint(raw: RawSignature) -> Seq<char> {
    "invalid signature `"@ + raw.sig@ + "`: expected 64 bytes in `b64u:` form"@
}

/// Whether a block is what a submitted signature stands for.
pub open spec fn stands_for(block: SignatureBlock, raw: RawSignature) -> bool {
    block.key_id.0 == raw.key_id && b64u(block.sig.bytes@) == raw.sig@
}

fn signature_bytes(bytes: &Vec<u8>) -> (r: [u8; 64])
    requires
        bytes@.len() == 64,
    ensures
        r@ == bytes@,
{
    let mut array: [u8; 64] = [0u8; 64];
    let mut i: usize = 0;
    while i < 64
        invariant
            bytes@.len() == 64,
            i <= 64,
            forall|k: int| 0 <= k < i ==> array@[k] == bytes@[k],
        decreases 64 - i,
    {
        array[i] = bytes[i];
        i = i + 1;
    }
    assert(array@ =~= bytes@);
    array
}

/// Decodes a submitted signature.
pub fn parse_signature(raw: &RawSignature) -> (r: Result<SignatureBlock, IntentError>)
    ensures
        signature_parsed(r, *raw),
{
    if !same_text(raw.alg.as_str(), ED25519) {
        return Err(
            IntentError::InvalidField(
                join3("unsupported signature alg `", raw.alg.as_str(), "`"),
            ),
        );
    }
    let key_id = match KeyId::new(raw.key_id.clone()) {
        Ok(key_id) => key_id,
        Err(failure) => return Err(IntentError::Domain(failure)),
    };
    if let Some(bytes) = from_b64u(raw.sig.as_str()) {
        if bytes.len() == 64 {
            let sig = Signature { bytes: signature_bytes(&bytes) };
            return Ok(SignatureBlock { alg: SignatureAlg::Ed25519, key_id, sig });
        }
        proof {
            if is_signature(raw.sig@) {
                let other = choose|b: Seq<u8>| #[trigger] b64u(b) == raw.sig@ && b.len() == 64;
                law_b64u_is_injective(other, bytes@);
            }
        }
    }
    Err(
        IntentError::InvalidField(
            join3(
                "invalid signature `",
                raw.sig.as_str(),
                "`: expected 64 bytes in `b64u:` form",
            ),
        ),
    )
}

/// What a time field of an intent holds.
pub type Instant = Result<(Timestamp, Seq<char>), Seq<char>>;

/// Whether an expiry is not after the creation.
pub open spec fn expiry_too_early(created: Instant, expires: Option<Instant>) -> bool {
    match expires {
        Some(at) => !(created->Ok_0).0.precedes((at->Ok_0).0),
        None => false,
    }
}

/// Whether a validated intent holds exactly what was submitted.
pub open spec fn holds(
    validated: ValidatedIntent,
    raw: RawIntent,
    created: Instant,
    expires: Option<Instant>,
) -> bool {
    let intent = validated.intent;
    &&& intent.schema@ == INTENT_SCHEMA@
    &&& intent.tenant_id.0 == raw.tenant_id
    &&& intent.intent_id.0 == raw.intent_id
    &&& intent.operation.0 == raw.operation
    &&& intent.actor.0 == raw.actor
    &&& intent.resource_id.0 == raw.resource_id
    &&& intent.state_type == match raw.state_type {
        Some(value) => state_type_in(value@),
        None => None,
    }
    &&& intent.expected_version == raw.expected_version
    &&& intent.inputs@ == raw.inputs@
    &&& intent.authority == match raw.authority {
        Some(Ok(proof)) => Some(proof),
        _ => None,
    }
    &&& intent.created_at == (created->Ok_0).0
    &&& intent.expires_at == match expires {
        Some(at) => Some((at->Ok_0).0),
        None => None,
    }
    &&& b64u(intent.nonce.bytes@) == raw.nonce@
    &&& keys_intent(validated.idempotency_key, intent)
    &&& match raw.signature {
        Some(signature) => validated.signature is Some && stands_for(
            validated.signature->0,
            signature,
        ),
        None => validated.signature is None,
    }
}

/// Whether a submitted signature carries a malformed key.
pub open spec fn key_malformed(raw: RawIntent) -> bool {
    raw.signature is Some && !valid_name(raw.signature->0.key_id@)
}

/// What comes of a submitted intent, given what its time fields hold.
pub open spec fn validation(
    r: Result<ValidatedIntent, IntentError>,
    raw: RawIntent,
    created: Instant,
    expires: Option<Instant>,
) -> bool {
    if raw.schema@ != INTENT_SCHEMA@ {
        r matches Err(IntentError::InvalidSchema { found, expected }) && found == raw.schema
            && expected@ == INTENT_SCHEMA@
    } else if !valid_id(raw.intent_id@, "int_"@) {
        r matches Err(IntentError::Domain(DomainError::InvalidId(message))) && message@
            == "intent id `"@ + raw.intent_id@ + "` must start with `int_`"@
    } else if !valid_name(raw.operation@) {
        r matches Err(IntentError::Domain(DomainError::InvalidOperation(text))) && text@
            == raw.operation@
    } else if key_malformed(raw) {
        r matches Err(IntentError::Domain(DomainError::InvalidKeyId(text))) && text@
            == raw.signature->0.key_id@
    } else if !is_b64u(raw.nonce@) {
        r matches Err(IntentError::Domain(DomainError::InvalidNonce(text))) && text@ == raw.nonce@
    } else if raw.state_type is Some && state_type_in(raw.state_type->0@) is None {
        field_refused(r, state_type_complaint(raw.state_type->0@))
    } else if raw.authority is Some && raw.authority->0 is Err {
        field_refused(r, "invalid authority proof: "@ + (raw.authority->0->Err_0)@)
    } else if created is Err {
        field_refused(r, time_complaint("created_at"@, raw.created_at@, created->Err_0))
    } else if expires is Some && expires->0 is Err {
        field_refused(r, time_complaint("expires_at"@, (raw.expires_at->0)@, expires->0->Err_0))
    } else if expiry_too_early(created, expires) {
        r matches Err(IntentError::InvalidExpiry(message)) && message@ == "expires_at `"@ + (
        expires->0->Ok_0).1 + "` must be after created_at `"@ + (created->Ok_0).1 + "`"@
    } else if raw.signature is Some && (raw.signature->0.alg@ != ED25519@) {
        field_refused(r, alg_complaint(raw.signature->0))
    } else if raw.signature is Some && !is_signature(raw.signature->0.sig@) {
        field_refused(r, bytes_complaint(raw.signature->0))
    } else {
        r matches Ok(validated) && holds(validated, raw, created, expires)
    }
}

/// The reading of an optional time field.
pub open spec fn optional_reading(read: Option<Reading>) -> Option<Instant> {
    match read {
        Some(at) => Some(reading(at)),
        None => None,
    }
}

/// Validates a submitted intent, given what was read in its time fields.
pub fn validate_read(raw: &RawIntent, created: Reading, expires: Option<Reading>) -> (r: Result<
    ValidatedIntent,
    IntentError,
>)
    requires
        expires is Some <==> raw.expires_at is Some,
    ensures
        validation(r, *raw, reading(created), optional_reading(expires)),
{
    if !same_text(raw.schema.as_str(), INTENT_SCHEMA) {
        return Err(
            IntentError::InvalidSchema {
                found: raw.schema.clone(),
                expected: INTENT_SCHEMA.to_owned(),
            },
        );
    }
    let intent_id = match IntentId::new(raw.intent_id.clone()) {
        Ok(id) => id,
        Err(failure) => return Err(IntentError::Domain(failure)),
    };
    let operation = match Operation::new(raw.operation.clone()) {
        Ok(operation) => operation,
        Err(failure) => return Err(IntentError::Domain(failure)),
    };
    if let Some(signature) = &raw.signature {
        if let Err(failure) = KeyId::new(signature.key_id.clone()) {
            return Err(IntentError::Domain(failure));
        }
    }
    let nonce = match Nonce::from_b64u_str(raw.nonce.as_str()) {
        Ok(nonce) => nonce,
        Err(failure) => return Err(IntentError::Domain(failure)),
    };
    let state_type: Option<StateType> = match &raw.state_type {
        Some(value) => match parse_state_type(value) {
            Ok(state_type) => Some(state_type),
            Err(failure) => return Err(failure),
        },
        None => None,
    };
    let authority: Option<AuthorityProof> = match &raw.authority {
        Some(Ok(proof)) => Some(proof.clone()),
        Some(Err(complaint)) => return Err(
            IntentError::InvalidField(join2("invalid authority proof: ", complaint.as_str())),
        ),
        None => None,
    };
    let (created_at, created_shown) = match parse_timestamp(
        "created_at",
        raw.created_at.as_str(),
        created,
    ) {
        Ok(instant) => instant,
        Err(failure) => return Err(failure),
    };
    let expires_at: Option<Timestamp> = match (expires, &raw.expires_at) {
        (Some(read), Some(text)) => {
            let (at, shown) = match parse_timestamp("expires_at", text.as_str(), read) {
                Ok(instant) => instant,
                Err(failure) => return Err(failure),
            };
            if !created_at.before(&at) {
                return Err(
                    IntentError::InvalidExpiry(
                        join5(
                            "expires_at `",
                            shown.as_str(),
                            "` must be after created_at `",
                            created_shown.as_str(),
                            "`",
                        ),
                    ),
                );
            }
            Some(at)
        },
        _ => None,
    };
    let signature: Option<SignatureBlock> = match &raw.signature {
        Some(submitted) => match parse_signature(submitted) {
            Ok(block) => Some(block),
            Err(failure) => return Err(failure),
        },
        None => None,
    };
    let intent = Intent::new(
        TenantId(raw.tenant_id.clone()),
        intent_id,
        operation,
        SubjectId(raw.actor.clone()),
        ResourceId(raw.resource_id.clone()),
        state_type,
        raw.expected_version,
        raw.inputs.clone(),
        authority,
        created_at,
        expires_at,
        nonce,
    );
    Ok(ValidatedIntent::from_intent(intent, signature))
}

/// What the expiry field of a submitted intent holds.
pub open spec fn expiry_named(raw: RawIntent) -> Option<Instant> {
    match raw.expires_at {
        Some(text) => Some(instant_named(text@)),
        None => None,
    }
}

/// Validates a submitted intent.
pub fn validate(raw: &RawIntent) -> (r: Result<ValidatedIntent, IntentError>)
    ensures
        validation(r, *raw, instant_named(raw.created_at@), expiry_named(*raw)),
{
    let created = read_timestamp(raw.created_at.as_str());
    let expires: Option<Reading> = match &raw.expires_at {
        Some(text) => Some(read_timestamp(text.as_str())),
        None => None,
    };
    validate_read(raw, created, expires)
}

/// A validated intent has not expired when it is made.
pub proof fn law_validated_intents_outlive_their_creation(
    validated: ValidatedIntent,
    raw: RawIntent,
    created: Instant,
    expires: Option<Instant>,
)
    requires
        validation(Ok(validated), raw, created, expires),
    ensures
        !expired(validated.intent.expires_at, validated.intent.created_at),
{
}

/// Validation is deterministic: two outcomes for the same submission agree,
/// be they validated intents or errors.
pub proof fn law_validation_is_deterministic(
    a: Result<ValidatedIntent, IntentError>,
    b: Result<ValidatedIntent, IntentError>,
    raw: RawIntent,
    created: Instant,
    expires: Option<Instant>,
)
    requires
        validation(a, raw, created, expires),
        validation(b, raw, created, expires),
    ensures
        match (a, b) {
            (Ok(x), Ok(y)) => same_intent(x.intent, y.intent) && keys_agree(
                x.idempotency_key,
                y.idempotency_key,
            ) && signatures_agree(x.signature, y.signature),
            (Err(x), Err(y)) => x.text() == y.text(),
            _ => false,
        },
{
    if let (Ok(x), Ok(y)) = (a, b) {
        law_b64u_is_injective(x.intent.nonce.bytes@, y.intent.nonce.bytes@);
        if raw.signature is Some {
            law_b64u_is_injective(x.signature->0.sig.bytes@, y.signature->0.sig.bytes@);
        }
    }
}

/// Submitted and typed intents lead to the same validated intent: wrapping the
/// intent that validation produced, or checking it as a typed one, changes
/// nothing.
pub proof fn law_typed_and_submitted_intents_agree(
    validated: ValidatedIntent,
    raw: RawIntent,
    created: Instant,
    expires: Option<Instant>,
    wrapped: ValidatedIntent,
    canonical_size: Result<usize, StateChronicleError>,
    checked: Result<ValidatedIntent, IntentError>,
)
    requires
        validation(Ok(validated), raw, created, expires),
        wrapped.intent == validated.intent,
        keys_intent(wrapped.idempotency_key, wrapped.intent),
        wrapped.signature == validated.signature,
        admission(checked, validated.intent, validated.signature, canonical_size),
    ensures
        wrapped == validated,
        checked is Ok ==> checked->Ok_0 == validated,
{
}

/// Whether two idempotency keys have the same parts.
pub open spec fn keys_agree(a: IdempotencyKey, b: IdempotencyKey) -> bool {
    a.tenant_id.0@ == b.tenant_id.0@ && a.intent_id.0@ == b.intent_id.0@ && a.actor.0@
        == b.actor.0@ && a.resource_id.0@ == b.resource_id.0@ && a.operation.0@ == b.operation.0@
}

/// Whether two optional signature blocks have the same parts.
pub open spec fn signatures_agree(a: Option<SignatureBlock>, b: Option<SignatureBlock>) -> bool {
    match (a, b) {
        (None, None) => true,
        (Some(x), Some(y)) => x.alg == y.alg && x.key_id.0@ == y.key_id.0@ && x.sig.bytes@
            == y.sig.bytes@,
        _ => false,
    }
}

} // verus!
