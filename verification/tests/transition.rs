use statechronicle::domain::digest::ContentDigest;
use statechronicle::domain::ids::{
    CommitId, EventId, Operation, ResourceId, SubjectId, TenantId,
};
use statechronicle::domain::state::{ResourceState, StateProjection, StateType};
use statechronicle::executor::error::ExecutorError;
use statechronicle::executor::transition::{
    apply, state_key_for, transfer_after_state, StateKey,
};
use statechronicle::json::{Fields, Number, Value};

fn s(text: &str) -> Value {
    Value::text(text)
}

fn object(members: &[(&str, Value)]) -> Value {
    Value::object(inputs(members))
}

fn inputs(entries: &[(&str, Value)]) -> Fields {
    let mut fields = Fields::new();
    for (name, value) in entries {
        fields.insert(String::from(*name), value.clone());
    }
    fields
}

fn op(name: &str) -> Operation {
    Operation::new(String::from(name)).unwrap()
}

fn projection(state_type: StateType, state: Value) -> StateProjection {
    StateProjection {
        tenant_id: TenantId(String::from("tenant.test")),
        resource_id: ResourceId(String::from("res:test")),
        state_type,
        version: 1,
        last_event_id: EventId::new(String::from("evt_01JZ8X2XRE5ZYW5V9R7VDQBSH4")).unwrap(),
        last_commit_id: CommitId::new(String::from("cmt_01JZ8X5HN3C4PXG5A9FGEWQF5W")).unwrap(),
        state_hash: ContentDigest::new([0u8; 32]),
        state: ResourceState::new(state_type, state),
    }
}

fn asset(status: &str, owner: &str) -> StateProjection {
    projection(
        StateType::UniqueAsset,
        object(&[("owner", s(owner)), ("status", s(status))]),
    )
}

fn stack(quantity: &str) -> StateProjection {
    projection(
        StateType::ConsumableStack,
        object(&[("subject", s("account:example:player_123")), ("quantity", s(quantity)), ("unit", s("arrows"))]),
    )
}

fn balance(balance: &str) -> StateProjection {
    projection(
        StateType::FungibleBalance,
        object(&[("subject", s("account:example:player_123")), ("balance", s(balance)), ("unit", s("gold_minor"))]),
    )
}

fn meter(remaining: &str, maximum: &str) -> StateProjection {
    projection(
        StateType::MeteredResource,
        object(&[("subject", s("account:example:player_123")), ("remaining", s(remaining)), ("maximum", s(maximum))]),
    )
}

fn entitlement(status: &str, transferable: bool) -> StateProjection {
    projection(
        StateType::Entitlement,
        object(&[("subject", s("account:example:player_123")), ("status", s(status)), ("transferable", Value::Bool(transferable))]),
    )
}

#[test]
fn asset_mint_sets_owner_active() {
    let after = apply(
        None,
        &op("asset.mint"),
        &inputs(&[("to_owner", s("account:example:player_123"))]),
    )
    .unwrap();
    assert_eq!(
        after,
        object(&[("owner", s("account:example:player_123")), ("status", s("active"))])
    );
}

#[test]
fn asset_transfer_changes_owner() {
    let after = apply(
        Some(&asset("active", "alice")),
        &op("asset.transfer"),
        &inputs(&[("from_owner", s("alice")), ("to_owner", s("bob"))]),
    )
    .unwrap();
    assert_eq!(after, object(&[("owner", s("bob")), ("status", s("active"))]));
}

#[test]
fn asset_lock_unlock_burn_preserve_owner() {
    let active = asset("active", "alice");
    let locked = apply(Some(&active), &op("asset.lock"), &Fields::new()).unwrap();
    assert_eq!(locked, object(&[("owner", s("alice")), ("status", s("locked"))]));
    let unlocked = apply(
        Some(&asset("locked", "alice")),
        &op("asset.unlock"),
        &Fields::new(),
    )
    .unwrap();
    assert_eq!(unlocked, object(&[("owner", s("alice")), ("status", s("active"))]));
    let burned = apply(Some(&active), &op("asset.burn"), &Fields::new()).unwrap();
    assert_eq!(burned, object(&[("owner", s("alice")), ("status", s("burned"))]));
}

#[test]
fn asset_restrict_honors_target_status() {
    let after = apply(
        Some(&asset("active", "alice")),
        &op("asset.restrict"),
        &inputs(&[("status", s("legal_hold"))]),
    )
    .unwrap();
    assert_eq!(after, object(&[("owner", s("alice")), ("status", s("legal_hold"))]));
}

#[test]
fn trade_lock_freezes_active_asset_with_trade_id() {
    let after = apply(
        Some(&asset("active", "alice")),
        &op("trade.lock"),
        &inputs(&[
            ("from_owner", s("alice")),
            ("trade_id", s("trade_001")),
        ]),
    )
    .unwrap();
    assert_eq!(
        after,
        object(&[("owner", s("alice")), ("status", s("trade_held")), ("trade_id", s("trade_001"))])
    );
}

#[test]
fn trade_unlock_returns_held_asset_to_active_and_drops_id() {
    let held = projection(
        StateType::UniqueAsset,
        object(&[("owner", s("alice")), ("status", s("trade_held")), ("trade_id", s("trade_001"))]),
    );
    let after = apply(
        Some(&held),
        &op("trade.unlock"),
        &inputs(&[("trade_id", s("trade_001"))]),
    )
    .unwrap();
    assert_eq!(after, object(&[("owner", s("alice")), ("status", s("active"))]));
}

#[test]
fn trade_settle_changes_owner_and_returns_to_active() {
    let held = projection(
        StateType::UniqueAsset,
        object(&[("owner", s("alice")), ("status", s("trade_held")), ("trade_id", s("trade_001"))]),
    );
    let after = apply(
        Some(&held),
        &op("trade.settle"),
        &inputs(&[
            ("from_owner", s("alice")),
            ("to_owner", s("bob")),
            ("trade_id", s("trade_001")),
        ]),
    )
    .unwrap();
    assert_eq!(after, object(&[("owner", s("bob")), ("status", s("active"))]));
}

#[test]
fn trade_ops_require_existing_resource_and_inputs() {
    // A trade op on an unborn resource fails closed.
    assert!(matches!(
        apply(None, &op("trade.lock"), &Fields::new()),
        Err(ExecutorError::TransitionInvalid(_))
    ));
    let held = projection(
        StateType::UniqueAsset,
        object(&[("owner", s("alice")), ("status", s("trade_held")), ("trade_id", s("trade_001"))]),
    );
    // Missing inputs fail closed.
    assert!(matches!(
        apply(Some(&held), &op("trade.settle"), &Fields::new()),
        Err(ExecutorError::TransitionInvalid(_))
    ));
    assert!(matches!(
        apply(Some(&held), &op("trade.unlock"), &Fields::new()),
        Err(ExecutorError::TransitionInvalid(_))
    ));
}

#[test]
fn stack_create_credit_debit_consume() {
    let created = apply(
        None,
        &op("stack.create"),
        &inputs(&[
            ("subject", s("alice")),
            ("unit", s("arrows")),
            ("quantity", s("10")),
        ]),
    )
    .unwrap();
    assert_eq!(
        created,
        object(&[("subject", s("alice")), ("quantity", s("10")), ("unit", s("arrows"))])
    );

    let credited = apply(
        Some(&stack("10")),
        &op("stack.credit"),
        &inputs(&[("quantity", s("5"))]),
    )
    .unwrap();
    assert_eq!(credited.get("quantity").unwrap().as_str().unwrap(), "15");

    let debited = apply(
        Some(&stack("10")),
        &op("stack.debit"),
        &inputs(&[("quantity", s("3"))]),
    )
    .unwrap();
    assert_eq!(debited.get("quantity").unwrap().as_str().unwrap(), "7");

    let consumed = apply(
        Some(&stack("10")),
        &op("stack.consume"),
        &inputs(&[("quantity", s("10"))]),
    )
    .unwrap();
    assert_eq!(consumed.get("quantity").unwrap().as_str().unwrap(), "0");
}

#[test]
fn stack_debit_underflow_fails_closed() {
    let error = apply(
        Some(&stack("10")),
        &op("stack.debit"),
        &inputs(&[("quantity", s("11"))]),
    )
    .unwrap_err();
    assert!(matches!(error, ExecutorError::TransitionInvalid(_)));
}

#[test]
fn stack_credit_overflow_fails_closed() {
    let max = u128::MAX.to_string();
    let error = apply(
        Some(&stack(&max)),
        &op("stack.credit"),
        &inputs(&[("quantity", s("1"))]),
    )
    .unwrap_err();
    assert!(matches!(error, ExecutorError::TransitionInvalid(_)));
}

#[test]
fn stack_release_and_adjust() {
    let released = apply(
        Some(&stack("10")),
        &op("stack.release"),
        &inputs(&[("quantity", s("2"))]),
    )
    .unwrap();
    assert_eq!(released.get("quantity").unwrap().as_str().unwrap(), "12");

    let adjusted = apply(
        Some(&stack("10")),
        &op("stack.adjust"),
        &inputs(&[("quantity", s("0"))]),
    )
    .unwrap();
    assert_eq!(adjusted.get("quantity").unwrap().as_str().unwrap(), "0");
}

#[test]
fn balance_credit_debit_spend_convert() {
    let credited = apply(
        Some(&balance("100")),
        &op("balance.credit"),
        &inputs(&[("amount", s("25"))]),
    )
    .unwrap();
    assert_eq!(credited.get("balance").unwrap().as_str().unwrap(), "125");

    let debited = apply(
        Some(&balance("100")),
        &op("balance.debit"),
        &inputs(&[("amount", s("40"))]),
    )
    .unwrap();
    assert_eq!(debited.get("balance").unwrap().as_str().unwrap(), "60");

    let spent = apply(
        Some(&balance("100")),
        &op("balance.spend"),
        &inputs(&[("amount", s("100"))]),
    )
    .unwrap();
    assert_eq!(spent.get("balance").unwrap().as_str().unwrap(), "0");

    let converted = apply(
        Some(&balance("100")),
        &op("balance.convert"),
        &inputs(&[("amount", s("30")), ("to_unit", s("silver_minor"))]),
    )
    .unwrap();
    assert_eq!(converted.get("balance").unwrap().as_str().unwrap(), "70");
    assert_eq!(converted.get("unit").unwrap().as_str().unwrap(), "silver_minor");
}

#[test]
fn balance_debit_underflow_fails_closed() {
    let error = apply(
        Some(&balance("10")),
        &op("balance.debit"),
        &inputs(&[("amount", s("11"))]),
    )
    .unwrap_err();
    assert!(matches!(error, ExecutorError::TransitionInvalid(_)));
}

#[test]
fn balance_credit_overflow_fails_closed() {
    let max = u128::MAX.to_string();
    let error = apply(
        Some(&balance(&max)),
        &op("balance.credit"),
        &inputs(&[("amount", s("1"))]),
    )
    .unwrap_err();
    assert!(matches!(error, ExecutorError::TransitionInvalid(_)));
}

#[test]
fn meter_consume_refill_set_maximum_reset() {
    let consumed = apply(
        Some(&meter("50", "100")),
        &op("meter.consume"),
        &inputs(&[("amount", s("30"))]),
    )
    .unwrap();
    assert_eq!(consumed.get("remaining").unwrap().as_str().unwrap(), "20");
    assert_eq!(consumed.get("maximum").unwrap().as_str().unwrap(), "100");

    let refilled = apply(
        Some(&meter("20", "100")),
        &op("meter.refill"),
        &Fields::new(),
    )
    .unwrap();
    assert_eq!(refilled.get("remaining").unwrap().as_str().unwrap(), "100");

    let re_maxed = apply(
        Some(&meter("80", "100")),
        &op("meter.set_maximum"),
        &inputs(&[("maximum", s("50"))]),
    )
    .unwrap();
    assert_eq!(re_maxed.get("remaining").unwrap().as_str().unwrap(), "50");
    assert_eq!(re_maxed.get("maximum").unwrap().as_str().unwrap(), "50");

    let reset = apply(
        Some(&meter("80", "100")),
        &op("meter.reset"),
        &Fields::new(),
    )
    .unwrap();
    assert_eq!(reset.get("remaining").unwrap().as_str().unwrap(), "0");
}

#[test]
fn meter_consume_underflow_fails_closed() {
    let error = apply(
        Some(&meter("10", "100")),
        &op("meter.consume"),
        &inputs(&[("amount", s("11"))]),
    )
    .unwrap_err();
    assert!(matches!(error, ExecutorError::TransitionInvalid(_)));
}

#[test]
fn entitlement_lifecycle_and_transfer() {
    let granted = apply(
        None,
        &op("entitlement.grant"),
        &inputs(&[("subject", s("alice")), ("transferable", Value::Bool(true))]),
    )
    .unwrap();
    assert_eq!(granted.get("status").unwrap().as_str().unwrap(), "granted");

    let active = apply(
        Some(&entitlement("granted", true)),
        &op("entitlement.activate"),
        &Fields::new(),
    )
    .unwrap();
    assert_eq!(active.get("status").unwrap().as_str().unwrap(), "active");

    let revoked = apply(
        Some(&entitlement("active", true)),
        &op("entitlement.revoke"),
        &Fields::new(),
    )
    .unwrap();
    assert_eq!(revoked.get("status").unwrap().as_str().unwrap(), "revoked");

    let transferred = apply(
        Some(&entitlement("active", true)),
        &op("entitlement.transfer"),
        &inputs(&[("to_subject", s("bob"))]),
    )
    .unwrap();
    assert_eq!(transferred.get("subject").unwrap().as_str().unwrap(), "bob");
    assert_eq!(transferred.get("status").unwrap().as_str().unwrap(), "active");
}

#[test]
fn listing_and_escrow_transitions() {
    let listed = apply(
        None,
        &op("listing.create"),
        &inputs(&[("seller", s("alice"))]),
    )
    .unwrap();
    assert_eq!(listed, object(&[("seller", s("alice")), ("status", s("listed"))]));

    let sold = apply(
        Some(&projection(
            StateType::Listing,
            object(&[("seller", s("alice")), ("status", s("listed"))]),
        )),
        &op("listing.buy"),
        &inputs(&[("buyer", s("bob"))]),
    )
    .unwrap();
    assert_eq!(sold.get("status").unwrap().as_str().unwrap(), "sold");

    let locked = apply(
        None,
        &op("escrow.lock"),
        &inputs(&[("buyer", s("bob")), ("seller", s("alice"))]),
    )
    .unwrap();
    assert_eq!(
        locked,
        object(&[("buyer", s("bob")), ("seller", s("alice")), ("status", s("locked"))])
    );

    let released = apply(
        Some(&projection(
            StateType::Escrow,
            object(&[("buyer", s("bob")), ("seller", s("alice")), ("status", s("locked"))]),
        )),
        &op("escrow.release"),
        &Fields::new(),
    )
    .unwrap();
    assert_eq!(released.get("status").unwrap().as_str().unwrap(), "released");
}

#[test]
fn floats_are_rejected_fail_closed() {
    let error = apply(
        Some(&stack("10")),
        &op("stack.credit"),
        &inputs(&[("quantity", s("1.5"))]),
    )
    .unwrap_err();
    assert!(matches!(error, ExecutorError::TransitionInvalid(_)));

    let number_error = apply(
        Some(&stack("10")),
        &op("stack.debit"),
        &inputs(&[("quantity", Value::Number(Number::PosInt(5)))]),
    )
    .unwrap_err();
    assert!(matches!(number_error, ExecutorError::TransitionInvalid(_)));
}

#[test]
fn malformed_and_unknown_inputs_fail_closed() {
    assert!(matches!(
        apply(None, &op("stack.create"), &Fields::new()),
        Err(ExecutorError::TransitionInvalid(_))
    ));
    assert!(matches!(
        apply(Some(&stack("10")), &op("stack.unknown"), &Fields::new()),
        Err(ExecutorError::TransitionInvalid(_))
    ));
    assert!(matches!(
        apply(Some(&stack("10")), &op("asset.mint"), &Fields::new()),
        Err(ExecutorError::TransitionInvalid(_))
    ));
    assert!(matches!(
        apply(None, &op("noop"), &Fields::new()),
        Err(ExecutorError::TransitionInvalid(_))
    ));
}

#[test]
fn state_key_for_matches_accumulator_derivation() {
    let tenant = TenantId(String::from("tenant:acme"));
    let resource = ResourceId(String::from("asset:sword_001"));
    let subject = SubjectId(String::from("account:example:player_123"));

    let resource_key = state_key_for(StateType::UniqueAsset, &tenant, None, &resource).unwrap();
    assert_eq!(
        resource_key,
        StateKey::for_resource("tenant:acme", "asset:sword_001")
    );

    let held_key = state_key_for(
        StateType::FungibleBalance,
        &tenant,
        Some(&subject),
        &resource,
    )
    .unwrap();
    assert_eq!(
        held_key,
        StateKey::for_subject_held(
            "tenant:acme",
            "asset:sword_001",
            "account:example:player_123"
        )
    );

    // Subject-held types require a subject; resource-keyed types reject none.
    assert!(state_key_for(StateType::FungibleBalance, &tenant, None, &resource).is_err());
    assert!(state_key_for(StateType::UniqueAsset, &tenant, Some(&subject), &resource).is_ok());
}

#[test]
fn stack_transfer_credits_destination_with_source_unit() {
    let source = stack("10");
    let destination = stack("20");
    let after = transfer_after_state(
        &source,
        Some(&destination),
        &op("stack.transfer"),
        &inputs(&[("to_subject", s("bob")), ("quantity", s("4"))]),
    )
    .unwrap();
    assert_eq!(
        after,
        object(&[("subject", s("bob")), ("quantity", s("24")), ("unit", s("arrows"))])
    );
}

#[test]
fn stack_transfer_creates_destination_at_zero_when_absent() {
    let source = stack("10");
    let after = transfer_after_state(
        &source,
        None,
        &op("stack.transfer"),
        &inputs(&[("to_subject", s("bob")), ("quantity", s("4"))]),
    )
    .unwrap();
    assert_eq!(
        after,
        object(&[("subject", s("bob")), ("quantity", s("4")), ("unit", s("arrows"))])
    );
}

#[test]
fn stack_transfer_overflow_fails_closed() {
    let max = u128::MAX.to_string();
    let destination = projection(
        StateType::ConsumableStack,
        object(&[("subject", s("bob")), ("quantity", s(&max)), ("unit", s("arrows"))]),
    );
    let error = transfer_after_state(
        &stack("10"),
        Some(&destination),
        &op("stack.transfer"),
        &inputs(&[("to_subject", s("bob")), ("quantity", s("1"))]),
    )
    .unwrap_err();
    assert!(matches!(error, ExecutorError::TransitionInvalid(_)));
}

#[test]
fn balance_transfer_credits_destination_with_source_denomination() {
    let source = balance("100");
    let destination = balance("50");
    let after = transfer_after_state(
        &source,
        Some(&destination),
        &op("balance.transfer"),
        &inputs(&[("to_subject", s("bob")), ("amount", s("25"))]),
    )
    .unwrap();
    assert_eq!(
        after,
        object(&[("subject", s("bob")), ("balance", s("75")), ("unit", s("gold_minor"))])
    );
}

#[test]
fn balance_transfer_creates_destination_at_zero_when_absent() {
    let source = balance("100");
    let after = transfer_after_state(
        &source,
        None,
        &op("balance.transfer"),
        &inputs(&[("to_subject", s("bob")), ("amount", s("25"))]),
    )
    .unwrap();
    assert_eq!(
        after,
        object(&[("subject", s("bob")), ("balance", s("25")), ("unit", s("gold_minor"))])
    );
}

#[test]
fn transfer_after_state_rejects_missing_inputs() {
    let source = balance("100");
    assert!(matches!(
        transfer_after_state(
            &source,
            None,
            &op("balance.transfer"),
            &inputs(&[("amount", s("25"))])
        ),
        Err(ExecutorError::TransitionInvalid(_))
    ));
    assert!(matches!(
        transfer_after_state(
            &source,
            None,
            &op("balance.transfer"),
            &inputs(&[("to_subject", s("bob"))])
        ),
        Err(ExecutorError::TransitionInvalid(_))
    ));
}

#[test]
fn transfer_after_state_rejects_non_transfer_operations() {
    let source = balance("100");
    for name in ["balance.credit", "stack.credit", "asset.transfer"] {
        assert!(matches!(
            transfer_after_state(
                &source,
                None,
                &op(name),
                &inputs(&[("to_subject", s("bob")), ("amount", s("1"))])
            ),
            Err(ExecutorError::TransitionInvalid(_))
        ));
    }
}

#[test]
fn transfer_after_state_is_deterministic() {
    let source = balance("100");
    let inputs = inputs(&[("to_subject", s("bob")), ("amount", s("25"))]);
    let first = transfer_after_state(&source, None, &op("balance.transfer"), &inputs).unwrap();
    let second = transfer_after_state(&source, None, &op("balance.transfer"), &inputs).unwrap();
    assert_eq!(first, second);
}

#[test]
fn credits_restore_what_debits_took() {
    let before = stack("40");
    for debit in ["stack.debit", "stack.consume", "stack.reserve"] {
        for credit in ["stack.credit", "stack.release"] {
            let moved = inputs(&[("quantity", s("15"))]);
            let taken = apply(Some(&before), &op(debit), &moved).unwrap();
            assert_eq!(taken.text_member("quantity"), Some("25"));
            let lower = projection(StateType::ConsumableStack, taken);
            let restored = apply(Some(&lower), &op(credit), &moved).unwrap();
            assert_eq!(restored, before.state.payload);
        }
    }
    let before = balance("40");
    for debit in ["balance.debit", "balance.spend", "balance.reserve", "balance.burn"] {
        for credit in ["balance.mint", "balance.credit", "balance.release"] {
            let moved = inputs(&[("amount", s("40"))]);
            let taken = apply(Some(&before), &op(debit), &moved).unwrap();
            let lower = projection(StateType::FungibleBalance, taken);
            let restored = apply(Some(&lower), &op(credit), &moved).unwrap();
            assert_eq!(restored, before.state.payload);
        }
    }
}

#[test]
fn unlocking_restores_a_trade_locked_asset() {
    let before = asset("active", "alice");
    let lock = inputs(&[("from_owner", s("alice")), ("trade_id", s("trade_1"))]);
    let held = apply(Some(&before), &op("trade.lock"), &lock).unwrap();
    assert_eq!(
        held,
        object(&[("owner", s("alice")), ("status", s("trade_held")), ("trade_id", s("trade_1"))])
    );
    let held = projection(StateType::UniqueAsset, held);
    let unlock = inputs(&[("trade_id", s("trade_1"))]);
    let after = apply(Some(&held), &op("trade.unlock"), &unlock).unwrap();
    assert_eq!(after, before.state.payload);
}
