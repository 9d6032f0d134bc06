use std::collections::hash_map::DefaultHasher;
use std::hash::{Hash, Hasher};

use statechronicle::domain::digest::{ContentDigest, Signature, SignatureAlg, SignatureBlock};
use statechronicle::domain::encoding::{from_b64u, to_b64u};
use statechronicle::domain::error::{DomainError, StateChronicleError};
use statechronicle::domain::ids::{
    IntentId, KeyId, Operation, ResourceId, SubjectId, TenantId,
};
use statechronicle::domain::intent::{
    AuthorityProof, EvaluationResult, Intent, Nonce, INTENT_SCHEMA,
};
use statechronicle::domain::state::StateType;
use statechronicle::domain::time::{read_timestamp, Timestamp};
use statechronicle::intent::error::IntentError;
use statechronicle::intent::parse::{check_payload, check_payload_str, decoded};
use statechronicle::intent::raw::{RawIntent, RawSignature};
use statechronicle::intent::validate::{validate, validate_read};
use statechronicle::intent::validated::{IdempotencyKey, ValidatedIntent};
use statechronicle::json::{Fields, Value};
use statechronicle::limits::{MAX_ID_LENGTH, MAX_INTENT_BYTES, MAX_JSON_DEPTH};

fn s(text: &str) -> Value {
    Value::text(text)
}

fn at(text: &str) -> Timestamp {
    read_timestamp(text).unwrap().0
}

fn sample_raw() -> RawIntent {
    RawIntent {
        schema: String::from(INTENT_SCHEMA),
        tenant_id: String::from("acme.game.alpha"),
        intent_id: String::from("int_01JZ8WJ1V6MJ6Y3Z6Z9CA8B2K2"),
        operation: String::from("asset.transfer"),
        actor: String::from("account:example:player_123"),
        resource_id: String::from("asset:sword_001"),
        state_type: Some(s("unique_asset")),
        expected_version: 41,
        inputs: Fields::new().with("to_owner", s("account:example:player_456")),
        authority: None,
        created_at: String::from("2026-07-14T00:00:00Z"),
        expires_at: Some(String::from("2026-07-14T00:05:00Z")),
        nonce: String::from("b64u:AAME"),
        signature: None,
    }
}

/// The payload that clients send, with both owners in its inputs.
fn sample_payload() -> RawIntent {
    let mut raw = sample_raw();
    raw.inputs = Fields::new()
        .with("from_owner", s("account:example:player_123"))
        .with("to_owner", s("account:example:player_456"));
    raw
}

fn sample_intent() -> Intent {
    Intent::new(
        TenantId(String::from("acme.game.alpha")),
        IntentId::new(String::from("int_01JZ8WJ1V6MJ6Y3Z6Z9CA8B2K2")).unwrap(),
        Operation::new(String::from("asset.transfer")).unwrap(),
        SubjectId(String::from("account:example:player_123")),
        ResourceId(String::from("asset:sword_001")),
        Some(StateType::UniqueAsset),
        41,
        Fields::new(),
        None,
        at("2026-07-14T00:00:00Z"),
        None,
        Nonce::from_bytes(vec![1, 2, 3]),
    )
}

fn sample_key() -> IdempotencyKey {
    IdempotencyKey::new(
        TenantId(String::from("acme.game.alpha")),
        IntentId::new(String::from("int_01JZ8WJ1V6MJ6Y3Z6Z9CA8B2K2")).unwrap(),
        SubjectId(String::from("account:example:player_123")),
        ResourceId(String::from("asset:sword_001")),
        Operation::new(String::from("asset.transfer")).unwrap(),
    )
}

// ---------------------------------------------------------------------------
// Validation.
// ---------------------------------------------------------------------------

#[test]
fn validate_accepts_valid_raw_intent() {
    let validated = validate(&sample_raw()).unwrap();
    assert_eq!(validated.intent.schema, INTENT_SCHEMA);
    assert_eq!(validated.intent.expected_version, 41);
    assert_eq!(
        validated.idempotency_key.intent_id.as_str(),
        "int_01JZ8WJ1V6MJ6Y3Z6Z9CA8B2K2"
    );
    assert_eq!(
        validated.idempotency_key.operation.as_str(),
        "asset.transfer"
    );
    assert_eq!(validated.idempotency_key.tenant_id.0, "acme.game.alpha");
    assert!(validated.signature.is_none());
}

#[test]
fn validate_rejects_wrong_schema() {
    let mut raw = sample_raw();
    raw.schema = String::from("statechronicle.intent.v999");
    let error = validate(&raw).unwrap_err();
    assert!(matches!(
        error,
        IntentError::InvalidSchema { found, expected }
        if found == "statechronicle.intent.v999" && expected == INTENT_SCHEMA
    ));
}

#[test]
fn validate_rejects_invalid_state_type() {
    let mut raw = sample_raw();
    raw.state_type = Some(s("profile_custom"));
    assert!(matches!(
        validate(&raw),
        Err(IntentError::InvalidField(message))
        if message.contains("state_type")
    ));
    raw.state_type = Some(Value::Bool(true));
    assert_eq!(
        validate(&raw),
        Err(IntentError::InvalidField(String::from(
            "invalid state_type: expected a string"
        )))
    );
}

#[test]
fn validate_accepts_missing_state_type() {
    let mut raw = sample_raw();
    raw.state_type = None;
    let validated = validate(&raw).unwrap();
    assert!(validated.intent.state_type.is_none());
}

#[test]
fn validate_knows_every_state_type() {
    let names = [
        ("unique_asset", StateType::UniqueAsset),
        ("consumable_stack", StateType::ConsumableStack),
        ("fungible_balance", StateType::FungibleBalance),
        ("entitlement", StateType::Entitlement),
        ("metered_resource", StateType::MeteredResource),
        ("listing", StateType::Listing),
        ("escrow", StateType::Escrow),
    ];
    for (name, state_type) in names {
        let mut raw = sample_raw();
        raw.state_type = Some(s(name));
        assert_eq!(
            validate(&raw).unwrap().intent.state_type,
            Some(state_type)
        );
    }
}

#[test]
fn validate_rejects_expiry_at_creation_time() {
    let mut raw = sample_raw();
    raw.expires_at = Some(String::from("2026-07-14T00:00:00Z"));
    assert_eq!(
        validate(&raw),
        Err(IntentError::InvalidExpiry(String::from(
            "expires_at `2026-07-14 00:00:00 UTC` must be after created_at \
             `2026-07-14 00:00:00 UTC`"
        )))
    );
}

#[test]
fn validate_rejects_expiry_before_creation_time() {
    let mut raw = sample_raw();
    raw.expires_at = Some(String::from("2026-07-13T23:59:59Z"));
    assert!(matches!(validate(&raw), Err(IntentError::InvalidExpiry(_))));
}

#[test]
fn validate_accepts_expiry_after_creation_time() {
    let validated = validate(&sample_raw()).unwrap();
    let expires_at = validated.intent.expires_at.unwrap();
    let created_at = validated.intent.created_at;
    assert!(expires_at > created_at);
}

#[test]
fn validate_rejects_invalid_intent_id() {
    let mut raw = sample_raw();
    raw.intent_id = String::from("no_prefix");
    assert!(matches!(validate(&raw), Err(IntentError::Domain(_))));
}

#[test]
fn validate_rejects_invalid_operation() {
    let mut raw = sample_raw();
    raw.operation = String::new();
    assert!(matches!(
        validate(&raw),
        Err(IntentError::Domain(DomainError::InvalidOperation(_)))
    ));
}

#[test]
fn validate_rejects_invalid_nonce() {
    let mut raw = sample_raw();
    raw.nonce = String::from("not-a-b64u-nonce");
    assert!(matches!(
        validate(&raw),
        Err(IntentError::Domain(DomainError::InvalidNonce(_)))
    ));
}

#[test]
fn validate_rejects_invalid_timestamp() {
    let mut raw = sample_raw();
    raw.created_at = String::from("yesterday");
    assert!(matches!(
        validate(&raw),
        Err(IntentError::InvalidField(message))
        if message.contains("created_at")
    ));
    assert_eq!(
        validate(&raw),
        Err(IntentError::InvalidField(String::from(
            "invalid created_at `yesterday`: premature end of input"
        )))
    );
    let mut late = sample_raw();
    late.expires_at = Some(String::from("2026-13-14T00:05:00Z"));
    assert_eq!(
        validate(&late),
        Err(IntentError::InvalidField(String::from(
            "invalid expires_at `2026-13-14T00:05:00Z`: input is out of range"
        )))
    );
}

#[test]
fn validate_rejects_malformed_authority() {
    let mut raw = sample_raw();
    raw.authority = Some(Err(String::from("missing field `kind`")));
    assert_eq!(
        validate(&raw),
        Err(IntentError::InvalidField(String::from(
            "invalid authority proof: missing field `kind`"
        )))
    );
    let proof = AuthorityProof {
        kind: String::from("trustgrant.evaluation"),
        evaluation_digest: ContentDigest::new([3u8; 32]),
        result: EvaluationResult::Allow,
        evaluated_at: at("2026-07-14T00:00:00Z"),
    };
    raw.authority = Some(Ok(proof.clone()));
    assert_eq!(validate(&raw).unwrap().intent.authority, Some(proof));
}

fn raw_signature(alg: &str, key_id: &str, sig: &str) -> Option<RawSignature> {
    Some(RawSignature {
        alg: String::from(alg),
        key_id: String::from(key_id),
        sig: String::from(sig),
    })
}

#[test]
fn validate_rejects_unsupported_signature_alg() {
    let mut raw = sample_raw();
    raw.signature = raw_signature("rsa", "did:key:z6Mk...#key-1", "b64u:AAAA");
    assert!(matches!(
        validate(&raw),
        Err(IntentError::InvalidField(message))
        if message.contains("signature alg")
    ));
}

#[test]
fn validate_rejects_malformed_signature_bytes() {
    let mut raw = sample_raw();
    raw.signature = raw_signature("ed25519", "did:key:z6Mk...#key-1", "b64u:AAAA");
    assert!(matches!(
        validate(&raw),
        Err(IntentError::InvalidField(message))
        if message.contains("invalid signature")
    ));
}

#[test]
fn validate_rejects_a_malformed_key_before_the_signature() {
    let mut raw = sample_raw();
    raw.signature = raw_signature("rsa", "", "b64u:AAAA");
    assert!(matches!(
        validate(&raw),
        Err(IntentError::Domain(DomainError::InvalidKeyId(_)))
    ));
}

#[test]
fn validate_parses_embedded_signature_block() {
    let mut bytes = [0u8; 64];
    for (i, byte) in bytes.iter_mut().enumerate() {
        *byte = (i * 7 + 3) as u8;
    }
    let mut raw = sample_payload();
    raw.signature = raw_signature(
        "ed25519",
        "did:key:z6Mk...#key-1",
        &to_b64u(&bytes.to_vec()),
    );
    let validated = validate(&raw).unwrap();
    let block = validated.signature.as_ref().unwrap();
    assert_eq!(block.alg, SignatureAlg::Ed25519);
    assert_eq!(block.key_id.as_str(), "did:key:z6Mk...#key-1");
    assert_eq!(block.sig, Signature { bytes });
}

#[test]
fn is_expired_checks_expiry_against_now() {
    let validated = validate(&sample_raw()).unwrap();
    assert!(!validated.is_expired(at("2026-07-14T00:04:59Z")));
    assert!(validated.is_expired(at("2026-07-14T00:05:00Z")));
    assert!(validated.is_expired(at("2026-07-14T00:05:01Z")));
}

#[test]
fn validate_intent_without_expiry_never_expires() {
    let mut raw = sample_raw();
    raw.expires_at = None;
    let validated = validate(&raw).unwrap();
    assert!(!validated.is_expired(at("2999-01-01T00:00:00Z")));
}

#[test]
fn validate_preserves_nonce_and_authority() {
    let validated = validate(&sample_raw()).unwrap();
    assert_eq!(validated.intent.nonce, Nonce::from_bytes(vec![0, 3, 4]));
    assert!(validated.intent.authority.is_none());
}

#[test]
fn checks_come_in_their_documented_order() {
    let mut raw = sample_raw();
    raw.schema = String::from("other");
    raw.intent_id = String::from("bad");
    raw.nonce = String::from("bad");
    raw.state_type = Some(s("bad"));
    raw.created_at = String::from("bad");
    raw.signature = raw_signature("rsa", "k", "bad");
    assert!(matches!(
        validate(&raw),
        Err(IntentError::InvalidSchema { .. })
    ));
    raw.schema = String::from(INTENT_SCHEMA);
    assert!(matches!(
        validate(&raw),
        Err(IntentError::Domain(DomainError::InvalidId(_)))
    ));
    raw.intent_id = String::from("int_1");
    assert!(matches!(
        validate(&raw),
        Err(IntentError::Domain(DomainError::InvalidNonce(_)))
    ));
    raw.nonce = String::from("b64u:");
    assert!(matches!(
        validate(&raw),
        Err(IntentError::InvalidField(message)) if message.contains("state_type")
    ));
    raw.state_type = None;
    assert!(matches!(
        validate(&raw),
        Err(IntentError::InvalidField(message)) if message.contains("created_at")
    ));
    raw.created_at = String::from("2026-07-14T00:00:00Z");
    assert!(matches!(
        validate(&raw),
        Err(IntentError::InvalidField(message)) if message.contains("signature alg")
    ));
}

#[test]
fn readings_decide_times() {
    let raw = sample_raw();
    let early = Timestamp { secs: 10, nanos: 0 };
    let later = Timestamp { secs: 10, nanos: 1 };
    let read = |at: Timestamp, shown: &str| Ok((at, String::from(shown)));
    let validated = validate_read(&raw, read(early, "early"), Some(read(later, "later"))).unwrap();
    assert_eq!(validated.intent.created_at, early);
    assert_eq!(validated.intent.expires_at, Some(later));
    assert_eq!(
        validate_read(&raw, read(later, "later"), Some(read(early, "early"))),
        Err(IntentError::InvalidExpiry(String::from(
            "expires_at `early` must be after created_at `later`"
        )))
    );
    assert_eq!(
        validate_read(&raw, Err(String::from("odd")), Some(read(early, "early"))),
        Err(IntentError::InvalidField(String::from(
            "invalid created_at `2026-07-14T00:00:00Z`: odd"
        )))
    );
}

#[test]
fn timestamps_are_read_in_utc() {
    let (moment, shown) = read_timestamp("1970-01-01T01:00:00.5+01:00").unwrap();
    assert_eq!(
        moment,
        Timestamp {
            secs: 0,
            nanos: 500_000_000
        }
    );
    assert_eq!(shown, "1970-01-01 00:00:00.500 UTC");
    assert_eq!(at("2026-07-14T00:00:00Z").secs, 1_783_987_200);
}

// ---------------------------------------------------------------------------
// Idempotency.
// ---------------------------------------------------------------------------

#[test]
fn idempotency_key_is_stable_across_reparse() {
    let payload = sample_payload();
    let first = validate(&payload).unwrap();
    let second = validate(&payload).unwrap();
    assert_eq!(first.idempotency_key, second.idempotency_key);

    let mut other = payload;
    other.intent_id = String::from("int_01JZ8WJ1V6MJ6Y3Z6Z9CA8B2K3");
    let third = validate(&other).unwrap();
    assert_ne!(first.idempotency_key, third.idempotency_key);
    assert_eq!(
        first.idempotency_key.tenant_id,
        third.idempotency_key.tenant_id
    );
    assert_eq!(
        first.idempotency_key.operation,
        third.idempotency_key.operation
    );
}

#[test]
fn idempotency_tuple_fields_come_from_payload() {
    let validated = validate(&sample_payload()).unwrap();
    let key = &validated.idempotency_key;
    assert_eq!(key.tenant_id.0, "acme.game.alpha");
    assert_eq!(key.intent_id.as_str(), "int_01JZ8WJ1V6MJ6Y3Z6Z9CA8B2K2");
    assert_eq!(key.actor.0, "account:example:player_123");
    assert_eq!(key.resource_id.0, "asset:sword_001");
    assert_eq!(key.operation.as_str(), "asset.transfer");
}

#[test]
fn idempotency_key_hashes() {
    let mut first_hasher = DefaultHasher::new();
    sample_key().hash(&mut first_hasher);
    let first = first_hasher.finish();

    let mut second_hasher = DefaultHasher::new();
    sample_key().hash(&mut second_hasher);
    let second = second_hasher.finish();
    assert_eq!(first, second);
}

#[test]
fn idempotency_key_differs_on_intent_id() {
    let key = sample_key();
    let other = IdempotencyKey::new(
        key.tenant_id.clone(),
        IntentId::new(String::from("int_other")).unwrap(),
        key.actor.clone(),
        key.resource_id.clone(),
        key.operation.clone(),
    );
    assert_ne!(key, other);
}

#[test]
fn validation_is_deterministic() {
    let raw = sample_payload();
    assert_eq!(validate(&raw), validate(&raw));
}

#[test]
fn wrong_schema_fails_closed() {
    let mut payload = sample_payload();
    payload.schema = String::from("statechronicle.intent.v999");
    let error = validate(&payload).unwrap_err();
    assert!(matches!(
        error,
        IntentError::InvalidSchema { found, expected }
        if found == "statechronicle.intent.v999" && expected == INTENT_SCHEMA
    ));
}

#[test]
fn validated_intent_reflects_expiry_window() {
    let validated = validate(&sample_payload()).unwrap();
    assert!(!validated.is_expired(at("2026-07-14T00:04:00Z")));
    assert!(validated.is_expired(at("2026-07-14T00:06:00Z")));
    assert_eq!(
        validated.intent.expires_at.unwrap(),
        at("2026-07-14T00:05:00+00:00")
    );
}

#[test]
fn nonce_is_preserved_through_the_pipeline() {
    let validated = validate(&sample_payload()).unwrap();
    assert_eq!(validated.intent.nonce, Nonce::from_bytes(vec![0, 3, 4]));
    assert_eq!(validated.intent.inputs.entries.len(), 2);
    assert_eq!(
        validated.intent.inputs.get("to_owner"),
        Some(&s("account:example:player_456"))
    );
}

// ---------------------------------------------------------------------------
// Typed intents.
// ---------------------------------------------------------------------------

#[test]
fn from_intent_derives_idempotency_key_without_parsing() {
    let intent = sample_intent();
    let validated = ValidatedIntent::from_intent(intent.clone(), None);
    assert_eq!(validated.intent, intent);
    assert_eq!(validated.signature, None);
    assert_eq!(validated.idempotency_key, sample_key());
}

#[test]
fn try_from_intent_rejects_invalid_typed_fields() {
    let mut intent = sample_intent();
    intent.actor = SubjectId(String::new());
    assert_eq!(
        ValidatedIntent::try_from_intent(intent, None, Ok(10)),
        Err(IntentError::InvalidField(String::from(
            "actor identifier must not be empty"
        )))
    );
}

#[test]
fn try_from_intent_rejects_unbounded_or_control_identifiers() {
    let mut oversized = sample_intent();
    oversized.tenant_id = TenantId("é".repeat(MAX_ID_LENGTH + 1));
    assert_eq!(
        ValidatedIntent::try_from_intent(oversized, None, Ok(10)),
        Err(IntentError::InvalidField(format!(
            "tenant identifier exceeds {MAX_ID_LENGTH} characters"
        )))
    );

    let mut control = sample_intent();
    control.resource_id = ResourceId(String::from("asset:bad\nvalue"));
    assert_eq!(
        ValidatedIntent::try_from_intent(control, None, Ok(10)),
        Err(IntentError::InvalidField(String::from(
            "resource identifier must not contain control characters"
        )))
    );
}

#[test]
fn try_from_intent_rejects_deep_typed_inputs() {
    let mut intent = sample_intent();
    let mut value = Value::Null;
    for _ in 0..=MAX_JSON_DEPTH {
        value = Value::Array(vec![value]);
    }
    intent.inputs.insert(String::from("nested"), value);
    assert_eq!(
        ValidatedIntent::try_from_intent(intent, None, Ok(10)),
        Err(IntentError::InvalidField(format!(
            "intent input nesting depth exceeds limit {MAX_JSON_DEPTH}"
        )))
    );
}

#[test]
fn try_from_intent_checks_schema_expiry_and_size() {
    let mut schema = sample_intent();
    schema.schema = String::from("other");
    assert!(matches!(
        ValidatedIntent::try_from_intent(schema, None, Ok(10)),
        Err(IntentError::InvalidSchema { .. })
    ));
    let mut expired = sample_intent();
    expired.expires_at = Some(expired.created_at);
    assert_eq!(
        ValidatedIntent::try_from_intent(expired, None, Ok(10)),
        Err(IntentError::InvalidExpiry(String::from(
            "expires_at must be after created_at"
        )))
    );
    assert_eq!(
        ValidatedIntent::try_from_intent(sample_intent(), None, Ok(MAX_INTENT_BYTES + 1)),
        Err(IntentError::SizeLimitExceeded {
            name: String::from("intent"),
            limit: MAX_INTENT_BYTES,
            actual: MAX_INTENT_BYTES + 1,
        })
    );
    assert_eq!(
        ValidatedIntent::try_from_intent(
            sample_intent(),
            None,
            Err(StateChronicleError::Canonicalization(String::from("boom")))
        ),
        Err(IntentError::Domain(DomainError::Core(
            StateChronicleError::Canonicalization(String::from("boom"))
        )))
    );
    let block = SignatureBlock {
        alg: SignatureAlg::Ed25519,
        key_id: KeyId::new(String::from("did:key:z6Mk...#key-1")).unwrap(),
        sig: Signature { bytes: [0u8; 64] },
    };
    let validated = ValidatedIntent::try_from_intent(
        sample_intent(),
        Some(block.clone()),
        Ok(MAX_INTENT_BYTES),
    )
    .unwrap();
    assert_eq!(validated.idempotency_key, sample_key());
    assert_eq!(validated.signature, Some(block));
}

// ---------------------------------------------------------------------------
// Payload bounds.
// ---------------------------------------------------------------------------

#[test]
fn parse_intent_rejects_oversized_payload() {
    let oversized = vec![b'{'; MAX_INTENT_BYTES + 1];
    assert!(matches!(
        check_payload(&oversized),
        Err(IntentError::SizeLimitExceeded { name, limit, actual })
        if name == "intent" && limit == MAX_INTENT_BYTES && actual == MAX_INTENT_BYTES + 1
    ));
}

#[test]
fn oversized_payload_fails_closed() {
    let oversized = "{".repeat(MAX_INTENT_BYTES + 1);
    assert!(matches!(
        check_payload_str(&oversized),
        Err(IntentError::SizeLimitExceeded { name, limit, actual })
        if name == "intent" && limit == MAX_INTENT_BYTES && actual == MAX_INTENT_BYTES + 1
    ));
    assert!(check_payload_str(&"é".repeat(MAX_INTENT_BYTES / 2)).is_ok());
    assert!(check_payload_str(&"é".repeat(MAX_INTENT_BYTES / 2 + 1)).is_err());
}

#[test]
fn parse_intent_accepts_exactly_at_limit() {
    assert!(check_payload(&vec![b' '; MAX_INTENT_BYTES]).is_ok());
}

#[test]
fn parse_intent_rejects_invalid_json() {
    let error = decoded(Err(String::from("key must be a string"))).unwrap_err();
    assert!(matches!(error, IntentError::InvalidJson { .. }));
    assert_eq!(
        error.message(),
        "intent payload is not valid JSON: key must be a string"
    );
    assert_eq!(decoded(Ok(sample_raw())), Ok(sample_raw()));
}

// ---------------------------------------------------------------------------
// Errors.
// ---------------------------------------------------------------------------

#[test]
fn intent_error_size_limit_exceeded_display_mentions_name_and_bounds() {
    let error = IntentError::SizeLimitExceeded {
        name: String::from("intent"),
        limit: MAX_INTENT_BYTES,
        actual: MAX_INTENT_BYTES.saturating_add(1),
    };
    let rendered = error.message();
    assert!(rendered.contains("intent"));
    assert!(rendered.contains("size limit exceeded"));
    assert!(rendered.contains(&MAX_INTENT_BYTES.to_string()));
}

#[test]
fn intent_error_state_chronicle_size_limit_converts_to_size_limit() {
    let source = StateChronicleError::SizeLimitExceeded {
        name: String::from("intent"),
        limit: 8,
        actual: 9,
    };
    let converted = IntentError::from(source);
    assert!(matches!(
        converted,
        IntentError::SizeLimitExceeded { name, limit, actual }
        if name == "intent" && limit == 8 && actual == 9
    ));
}

#[test]
fn intent_error_other_state_chronicle_errors_map_to_domain() {
    let source = StateChronicleError::SignatureVerification(String::from("boom"));
    let converted = IntentError::from(source);
    assert!(matches!(
        converted,
        IntentError::Domain(DomainError::Core(..))
    ));
}

// ---------------------------------------------------------------------------
// The b64u form.
// ---------------------------------------------------------------------------

#[test]
fn nonce_bytes_are_preserved() {
    for length in 0..40usize {
        let bytes: Vec<u8> = (0..length).map(|i| (i * 37 + length * 11) as u8).collect();
        let nonce = Nonce::from_bytes(bytes.clone());
        let encoded = nonce.to_b64u_string();
        let reparsed = Nonce::from_b64u_str(&encoded).unwrap();
        assert_eq!(reparsed, nonce);
        assert_eq!(reparsed.as_bytes(), bytes.as_slice());
    }
}

#[test]
fn b64u_texts_are_canonical() {
    assert_eq!(to_b64u(&vec![0, 3, 4]), "b64u:AAME");
    assert_eq!(to_b64u(&vec![255, 254]), "b64u:__4");
    assert_eq!(to_b64u(&vec![251]), "b64u:-w");
    assert_eq!(from_b64u("b64u:"), Some(vec![]));
    assert_eq!(from_b64u("b64u:-w"), Some(vec![251]));
    for refused in [
        "AAME", "b64u:-x", "b64u:__5", "b64u:A", "b64u:AAM=", "b64u:AA+E", "b64u:AAMEA",
    ] {
        assert_eq!(from_b64u(refused), None, "{refused}");
    }
}
