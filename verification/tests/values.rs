use statechronicle::amount::{decimal_text, Amount};
use statechronicle::domain::error::DomainError;
use statechronicle::domain::ids::{
    CommitId, EventId, IntentId, KeyId, Operation, ResourceId, SubjectId, TenantId,
};
use statechronicle::domain::state::StateType;
use statechronicle::domain::time::{has_expired, read_timestamp, Timestamp};
use statechronicle::json::{Fields, Number, Value};
use statechronicle::limits::MAX_ID_LENGTH;

#[test]
fn amounts_are_written_in_decimal() {
    for value in [0, 1, 9, 10, 907, u128::from(u64::MAX) + 1, u128::MAX] {
        let text = Amount::from_u128(value).to_canonical_string();
        assert_eq!(text, value.to_string());
        assert_eq!(decimal_text(value), value.to_string());
        assert_eq!(Amount::try_from_str(&text).unwrap().value, value);
    }
    assert_eq!(Amount::zero().value, 0);
}

#[test]
fn amounts_are_read_from_canonical_text_alone() {
    let beyond = "340282366920938463463374607431768211456";
    for text in ["", "-1", "+1", "01", "00", " 1", "1 ", "1.0", "1e3", "0x1", "\u{0661}", beyond] {
        assert!(Amount::try_from_str(text).is_none(), "{}", text);
    }
}

#[test]
fn amounts_do_not_wrap() {
    let most = Amount::from_u128(u128::MAX);
    let one = Amount::from_u128(1);
    assert!(most.checked_add(one).is_none());
    assert_eq!(most.checked_sub(one).unwrap().value, u128::MAX - 1);
    assert!(one.checked_sub(most).is_none());
    assert_eq!(one.checked_add(one).unwrap().value, 2);
    assert_eq!(one.smaller(most).value, 1);
    assert_eq!(most.smaller(one).value, 1);
}

#[test]
fn members_have_no_order() {
    let one = Fields::new().with("a", Value::text("x")).with("b", Value::Bool(true));
    let two = Fields::new().with("b", Value::Bool(true)).with("a", Value::text("x"));
    assert_eq!(one, two);
    assert_eq!(Value::object(one.clone()), Value::object(two));
    let three = one.clone().with("a", Value::Null);
    assert_ne!(one, three);
    assert_eq!(three.get("a"), Some(&Value::Null));
    assert_eq!(one.get("c"), None);
}

#[test]
fn members_are_read_by_kind() {
    let value = Value::object(
        Fields::new()
            .with("text", Value::text("x"))
            .with("flag", Value::Bool(false))
            .with("count", Value::Number(Number::PosInt(3))),
    );
    assert_eq!(value.text_member("text"), Some("x"));
    assert_eq!(value.text_member("flag"), None);
    assert_eq!(value.text_member("none"), None);
    assert_eq!(value.get("flag").unwrap().as_bool(), Some(false));
    assert_eq!(value.get("text").unwrap().as_bool(), None);
    assert_eq!(value.get("count").unwrap().as_str(), None);
    assert_eq!(Value::text("x").get("text"), None);
}

#[test]
fn ids_carry_their_prefix() {
    assert_eq!(IntentId::new(String::from("int_1")).unwrap().as_str(), "int_1");
    assert_eq!(EventId::new(String::from("evt_1")).unwrap().as_str(), "evt_1");
    assert_eq!(CommitId::new(String::from("cmt_1")).unwrap().as_str(), "cmt_1");
    for text in ["", "int_", "evt_1", "1"] {
        assert!(matches!(
            IntentId::new(String::from(text)),
            Err(DomainError::InvalidId(_))
        ));
    }
    let long = format!("int_{}", "x".repeat(MAX_ID_LENGTH));
    assert!(IntentId::new(long).is_err());
}

#[test]
fn names_are_filled_and_bounded() {
    assert!(matches!(
        Operation::new(String::new()),
        Err(DomainError::InvalidOperation(_))
    ));
    assert!(matches!(KeyId::new(String::new()), Err(DomainError::InvalidKeyId(_))));
    assert!(Operation::new("\u{e9}".repeat(MAX_ID_LENGTH)).is_ok());
    assert!(Operation::new("x".repeat(MAX_ID_LENGTH + 1)).is_err());
    assert!(KeyId::new("x".repeat(MAX_ID_LENGTH + 1)).is_err());
}

#[test]
fn ids_are_compared_by_their_text() {
    assert!(TenantId(String::from("a")).same(&TenantId(String::from("a"))));
    assert!(!TenantId(String::from("a")).same(&TenantId(String::from("ab"))));
    assert!(SubjectId(String::from("a")).same(&SubjectId(String::from("a"))));
    assert!(!ResourceId(String::from("a")).same(&ResourceId(String::from("b"))));
    assert!(Operation(String::from("asset.mint")).is("asset.mint"));
    assert!(!Operation(String::from("asset.mint")).is("asset.burn"));
}

#[test]
fn operations_hint_at_their_state_type() {
    for (name, hint) in [
        ("asset.mint", Some(StateType::UniqueAsset)),
        ("stack.credit", Some(StateType::ConsumableStack)),
        ("balance.transfer", Some(StateType::FungibleBalance)),
        ("entitlement.grant", Some(StateType::Entitlement)),
        ("meter.consume", Some(StateType::MeteredResource)),
        ("trade.settle", None),
        ("asset", None),
    ] {
        assert_eq!(Operation(String::from(name)).state_type_hint(), hint, "{}", name);
    }
}

#[test]
fn state_types_have_names() {
    for (name, state_type) in [
        ("unique_asset", StateType::UniqueAsset),
        ("consumable_stack", StateType::ConsumableStack),
        ("fungible_balance", StateType::FungibleBalance),
        ("entitlement", StateType::Entitlement),
        ("metered_resource", StateType::MeteredResource),
        ("listing", StateType::Listing),
        ("escrow", StateType::Escrow),
    ] {
        assert_eq!(StateType::from_name(name), Some(state_type));
    }
    assert_eq!(StateType::from_name("UniqueAsset"), None);
    assert!(StateType::FungibleBalance.is_subject_held());
    assert!(!StateType::UniqueAsset.is_subject_held());
}

#[test]
fn timestamps_are_read_as_instants() {
    let (utc, _zone) = read_timestamp("2026-07-14T00:00:00Z").unwrap();
    let (east, _zone) = read_timestamp("2026-07-14T02:00:00+02:00").unwrap();
    assert_eq!(utc, east);
    assert_eq!(utc, Timestamp { secs: 1_783_987_200, nanos: 0 });
    let (later, _zone) = read_timestamp("2026-07-14T00:00:00.25Z").unwrap();
    assert_eq!(later.nanos, 250_000_000);
    assert!(utc.before(&later));
    assert!(!later.before(&utc));
    assert!(read_timestamp("2026-07-14").is_err());
    assert!(read_timestamp("").is_err());
}

#[test]
fn expiry_is_permanent() {
    let then = read_timestamp("2026-07-14T00:00:00Z").unwrap().0;
    let before = read_timestamp("2026-07-13T23:59:59.9Z").unwrap().0;
    let after = read_timestamp("2026-07-14T00:00:00.1Z").unwrap().0;
    assert!(!has_expired(None, after));
    assert!(!has_expired(Some(then), before));
    assert!(has_expired(Some(then), then));
    assert!(has_expired(Some(then), after));
}
