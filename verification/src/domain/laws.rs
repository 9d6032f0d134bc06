//! What texts, instants and kinds of state mean.
use vstd::prelude::*;

use crate::amount::{amount_of, decimal, digit_char, lemma_amount_of_decimal};
use crate::domain::encoding::{b64u, base64url, digit64, value64};
use crate::domain::ids::{has_prefix, valid_id, valid_name};
use crate::domain::state::{state_type_hint, state_type_named, StateContent, StateType};
use crate::domain::time::{expired, Timestamp};
use crate::json::{items_of, json_of, member, members_of, Fields, Json, Value};
use crate::text::{control_char, text_lt};

verus! {

// ---------------------------------------------------------------------------
// Instants.
// ---------------------------------------------------------------------------
/// An instant as a number: later instants have greater ones.
pub open spec fn count_of(at: Timestamp) -> int {
    at.secs * 0x1_0000_0000 + at.nanos
}

/// An instant lies before another exactly when its number is less, and an
/// expiry has passed from the instant itself on; without one nothing expires.
pub proof fn law_instants_are_ordered_by_number(a: Timestamp, b: Timestamp)
    ensures
        a.precedes(b) <==> count_of(a) < count_of(b),
        expired(Some(a), b) <==> count_of(a) <= count_of(b),
        !expired(None, b),
{
}

// ---------------------------------------------------------------------------
// Amounts.
// ---------------------------------------------------------------------------
/// The number that decimal digits stand for, each place worth ten times the
/// next.
pub open spec fn worth(digits: Seq<char>) -> int
    decreases digits.len(),
{
    if digits.len() == 0 {
        0
    } else {
        worth(digits.drop_last()) * 10 + (digits.last() as int - '0' as int)
    }
}

/// Whether a text is a number as it is usually written: decimal digits, and no
/// zero in front of others.
pub open spec fn plain_number(text: Seq<char>) -> bool {
    &&& text.len() > 0
    &&& forall|i: int| 0 <= i < text.len() ==> '0' <= #[trigger] text[i] && text[i] <= '9'
    &&& text.len() > 1 ==> text[0] != '0'
}

/// A text denotes an amount exactly when it is a number as it is usually
/// written that is within an amount's range, and the amount is that number.
pub proof fn law_amounts_are_plain_numbers(text: Seq<char>)
    ensures
        amount_of(text) is Some <==> plain_number(text) && worth(text) <= u128::MAX,
        amount_of(text) is Some ==> amount_of(text)->0 == worth(text),
{
    if amount_of(text) is Some {
        let n = choose|n: u128| decimal(n as nat) == text;
        lemma_decimal_worth(n as nat);
    }
    if plain_number(text) {
        lemma_worth_decimal(text);
        if worth(text) <= u128::MAX {
            lemma_amount_of_decimal(worth(text) as u128);
        }
    }
}

proof fn lemma_digit_worth(d: nat)
    requires
        d < 10,
    ensures
        digit_char(d) as int - '0' as int == d,
        '0' <= digit_char(d) && digit_char(d) <= '9',
{
}

proof fn lemma_decimal_worth(n: nat)
    ensures
        worth(decimal(n)) == n,
        plain_number(decimal(n)),
        n > 0 ==> decimal(n)[0] != '0',
    decreases n,
{
    let text = decimal(n);
    if n < 10 {
        lemma_digit_worth(n);
        assert(text.drop_last() =~= Seq::empty());
        assert(worth(Seq::<char>::empty()) == 0);
    } else {
        lemma_decimal_worth(n / 10);
        lemma_digit_worth(n % 10);
        assert(text.drop_last() =~= decimal(n / 10));
        assert(text[0] == decimal(n / 10)[0]);
        assert forall|i: int| 0 <= i < text.len() implies '0' <= #[trigger] text[i] && text[i]
            <= '9' by {
            if i < text.len() - 1 {
                assert(text[i] == decimal(n / 10)[i]);
            }
        }
    }
}

proof fn lemma_worth_decimal(text: Seq<char>)
    requires
        plain_number(text),
    ensures
        worth(text) >= 0,
        text[0] != '0' ==> worth(text) > 0,
        decimal(worth(text) as nat) == text,
    decreases text.len(),
{
    let rest = text.drop_last();
    let d = (text.last() as int - '0' as int) as nat;
    assert('0' <= text[text.len() - 1] && text[text.len() - 1] <= '9');
    assert(digit_char(d) == text.last());
    if text.len() == 1 {
        assert(worth(rest) == 0);
        assert(decimal(d) =~= text);
    } else {
        assert forall|i: int| 0 <= i < rest.len() implies '0' <= #[trigger] rest[i] && rest[i]
            <= '9' by {
            assert(text[i] == rest[i]);
        }
        assert(rest[0] == text[0]);
        lemma_worth_decimal(rest);
        let n = worth(text) as nat;
        assert(n >= 10);
        assert(n / 10 == worth(rest) as nat && n % 10 == d) by (nonlinear_arith)
            requires
                n == worth(rest) * 10 + d,
                d < 10,
                worth(rest) >= 0,
        ;
        assert(decimal(n) =~= text);
    }
}

// ---------------------------------------------------------------------------
// Byte strings as text.
// ---------------------------------------------------------------------------
/// The digits of the URL-safe alphabet, in the order of their values.
pub open spec fn alphabet() -> Seq<char> {
    "ABCDEFGHIJKLMNOPQRSTUVWXYZabcdefghijklmnopqrstuvwxyz0123456789-_"@
}

/// Every digit stands for its place in the alphabet, and nothing else does.
pub proof fn law_digits_stand_in_alphabetical_order(n: int, c: char)
    requires
        0 <= n < 64,
    ensures
        alphabet().len() == 64,
        digit64(n) == alphabet()[n],
        value64(alphabet()[n]) == Some(n),
        value64(c) is Some <==> alphabet().contains(c),
{
    reveal_strlit("ABCDEFGHIJKLMNOPQRSTUVWXYZabcdefghijklmnopqrstuvwxyz0123456789-_");
    let letters = alphabet();
    assert(forall|k: int| 0 <= k < 64 ==> digit64(k) == #[trigger] letters[k]);
    if let Some(v) = value64(c) {
        assert(letters[v] == digit64(v));
        assert(digit64(v) == c);
    }
    if letters.contains(c) {
        let k = choose|k: int| 0 <= k < letters.len() && letters[k] == c;
        assert(digit64(k) == c);
    }
}

/// Three bytes become the four digits of the number that they form together;
/// one or two bytes at the end become two or three, filled up with zero bits.
/// Nothing pads the text, and a tag stands in front of it.
pub proof fn law_digits_keep_the_bits(bytes: Seq<u8>)
    ensures
        bytes.len() >= 3 ==> {
            let text = base64url(bytes);
            &&& text.len() == 4 + base64url(bytes.skip(3)).len()
            &&& text.skip(4) == base64url(bytes.skip(3))
            &&& forall|k: int| 0 <= k < 4 ==> value64(#[trigger] text[k]) is Some
            &&& bytes[0] * 65536 + bytes[1] * 256 + bytes[2] == value64(text[0])->0 * 262144
                + value64(text[1])->0 * 4096 + value64(text[2])->0 * 64 + value64(text[3])->0
        },
        bytes.len() == 2 ==> {
            let text = base64url(bytes);
            &&& text.len() == 3
            &&& forall|k: int| 0 <= k < 3 ==> value64(#[trigger] text[k]) is Some
            &&& (bytes[0] * 256 + bytes[1]) * 4 == value64(text[0])->0 * 4096 + value64(
                text[1],
            )->0 * 64 + value64(text[2])->0
        },
        bytes.len() == 1 ==> {
            let text = base64url(bytes);
            &&& text.len() == 2
            &&& forall|k: int| 0 <= k < 2 ==> value64(#[trigger] text[k]) is Some
            &&& bytes[0] * 16 == value64(text[0])->0 * 64 + value64(text[1])->0
        },
        bytes.len() == 0 ==> base64url(bytes).len() == 0,
        b64u(bytes) == "b64u:"@ + base64url(bytes),
{
    let text = base64url(bytes);
    assert(forall|n: int| 0 <= n < 64 ==> value64(#[trigger] digit64(n)) == Some(n));
    if bytes.len() >= 3 {
        assert(text.skip(4) =~= base64url(bytes.skip(3)));
    }
}

// ---------------------------------------------------------------------------
// Identifiers and text.
// ---------------------------------------------------------------------------
/// An id is its prefix and something after it, up to the length bound; a name
/// is anything that is not empty, up to the same bound.
pub proof fn law_ids_are_prefixed(prefix: Seq<char>, rest: Seq<char>, text: Seq<char>)
    ensures
        valid_id(prefix + rest, prefix) <==> 0 < rest.len() && prefix.len() + rest.len() <= 256,
        valid_id(text, prefix) ==> text == prefix + text.skip(prefix.len() as int),
        valid_name(text) <==> 1 <= text.len() <= 256,
{
    assert((prefix + rest).take(prefix.len() as int) =~= prefix);
    if valid_id(text, prefix) {
        assert(text =~= text.take(prefix.len() as int) + text.skip(prefix.len() as int));
    }
}

/// Texts are ordered by their first difference; a text comes after its own
/// beginnings.
pub proof fn law_texts_are_ordered_by_their_first_difference(
    same: Seq<char>,
    a: char,
    b: char,
    x: Seq<char>,
    y: Seq<char>,
)
    ensures
        text_lt(same + seq![a] + x, same + seq![b] + y) <==> (a as int) < (b as int) || (a == b
            && text_lt(x, y)),
        text_lt(same, same + seq![a] + x),
        !text_lt(same + seq![a] + x, same),
    decreases same.len(),
{
    let left = same + seq![a] + x;
    let right = same + seq![b] + y;
    if same.len() == 0 {
        assert(left.drop_first() =~= x);
        assert(right.drop_first() =~= y);
        assert(left[0] == a && right[0] == b);
    } else {
        let rest = same.drop_first();
        law_texts_are_ordered_by_their_first_difference(rest, a, b, x, y);
        assert(left.drop_first() =~= rest + seq![a] + x);
        assert(right.drop_first() =~= rest + seq![b] + y);
        assert(left[0] == same[0] && right[0] == same[0]);
    }
}

/// The control characters are those below the space, the delete character and
/// the thirty-two after it.
pub proof fn law_control_characters(c: char)
    ensures
        control_char(c) <==> (c as int) < 32 || 127 <= (c as int) < 160,
{
}

// ---------------------------------------------------------------------------
// Kinds of state.
// ---------------------------------------------------------------------------
/// The name of a kind of state.
pub open spec fn name_of(state_type: StateType) -> Seq<char> {
    match state_type {
        StateType::UniqueAsset => "unique_asset"@,
        StateType::ConsumableStack => "consumable_stack"@,
        StateType::FungibleBalance => "fungible_balance"@,
        StateType::Entitlement => "entitlement"@,
        StateType::MeteredResource => "metered_resource"@,
        StateType::Listing => "listing"@,
        StateType::Escrow => "escrow"@,
    }
}

/// What the operations on a kind of state start with.
pub open spec fn family_of(state_type: StateType) -> Seq<char> {
    match state_type {
        StateType::UniqueAsset => "asset."@,
        StateType::ConsumableStack => "stack."@,
        StateType::FungibleBalance => "balance."@,
        StateType::Entitlement => "entitlement."@,
        StateType::MeteredResource => "meter."@,
        StateType::Listing => "listing."@,
        StateType::Escrow => "escrow."@,
    }
}

proof fn lemma_kind_texts()
    ensures
        "unique_asset"@.len() == 12,
        "consumable_stack"@.len() == 16 && "consumable_stack"@[0] == 'c',
        "fungible_balance"@.len() == 16 && "fungible_balance"@[0] == 'f',
        "entitlement"@.len() == 11,
        "metered_resource"@.len() == 16 && "metered_resource"@[0] == 'm',
        "listing"@.len() == 7,
        "escrow"@.len() == 6,
        "asset."@.len() == 6 && "asset."@[0] == 'a',
        "stack."@.len() == 6 && "stack."@[0] == 's',
        "balance."@.len() == 8 && "balance."@[0] == 'b',
        "entitlement."@.len() == 12 && "entitlement."@[0] == 'e' && "entitlement."@[1] == 'n',
        "meter."@.len() == 6 && "meter."@[0] == 'm',
        "listing."@.len() == 8 && "listing."@[0] == 'l',
        "escrow."@.len() == 7 && "escrow."@[0] == 'e' && "escrow."@[1] == 's',
{
    reveal_strlit("unique_asset");
    reveal_strlit("consumable_stack");
    reveal_strlit("fungible_balance");
    reveal_strlit("entitlement");
    reveal_strlit("metered_resource");
    reveal_strlit("listing");
    reveal_strlit("escrow");
    reveal_strlit("asset.");
    reveal_strlit("stack.");
    reveal_strlit("balance.");
    reveal_strlit("entitlement.");
    reveal_strlit("meter.");
    reveal_strlit("listing.");
    reveal_strlit("escrow.");
}

/// Every kind of state is found under its own name and no other.
pub proof fn law_kinds_of_state_have_names(name: Seq<char>, state_type: StateType)
    ensures
        state_type_named(name) == Some(state_type) <==> name == name_of(state_type),
{
    lemma_kind_texts();
}

/// An operation belongs to the kind of state whose family it starts with.
pub proof fn law_operations_belong_to_families(state_type: StateType, rest: Seq<char>)
    ensures
        state_type_hint(family_of(state_type) + rest) == Some(state_type),
{
    lemma_kind_texts();
    let family = family_of(state_type);
    let op = family + rest;
    assert(op.take(family.len() as int) =~= family);
    assert(op[0] == family[0] && op[1] == family[1]);
    assert forall|other: StateType| #[trigger]
        has_prefix(op, family_of(other)) implies other == state_type by {
        let t = family_of(other);
        assert(op.take(t.len() as int)[0] == t[0]);
        assert(op.take(t.len() as int)[1] == t[1]);
    }
    assert(has_prefix(op, family_of(StateType::UniqueAsset)) ==> state_type
        == StateType::UniqueAsset);
    assert(has_prefix(op, family_of(StateType::ConsumableStack)) ==> state_type
        == StateType::ConsumableStack);
    assert(has_prefix(op, family_of(StateType::FungibleBalance)) ==> state_type
        == StateType::FungibleBalance);
    assert(has_prefix(op, family_of(StateType::Entitlement)) ==> state_type
        == StateType::Entitlement);
    assert(has_prefix(op, family_of(StateType::MeteredResource)) ==> state_type
        == StateType::MeteredResource);
    assert(has_prefix(op, family_of(StateType::Listing)) ==> state_type == StateType::Listing);
    assert(has_prefix(op, family_of(StateType::Escrow)) ==> state_type == StateType::Escrow);
    assert(has_prefix(op, family));
}

/// An operation of no family belongs to no kind of state.
pub proof fn law_other_operations_belong_to_none(op: Seq<char>)
    requires
        forall|state_type: StateType, rest: Seq<char>|
            op != #[trigger] (family_of(state_type) + rest),
    ensures
        state_type_hint(op) is None,
{
    if let Some(state_type) = state_type_hint(op) {
        let family = family_of(state_type);
        assert(op =~= family + op.skip(family.len() as int)) by {
            assert(op.take(family.len() as int) == family);
            assert(op =~= op.take(family.len() as int) + op.skip(family.len() as int));
        }
    }
}

/// What a state says of its parties: the holder of a stack, a balance, an
/// entitlement or a meter is its `subject`; a unique asset has an `owner`, and
/// a `trade_id` while a trade holds it; other states say none of these.
pub proof fn law_states_name_their_parties(state: StateContent, text: Seq<char>)
    ensures
        state.subject() == Some(text) <==> member(state.payload, "subject"@) == Some(
            Json::Str(text),
        ) && (state.state_type == StateType::ConsumableStack || state.state_type
            == StateType::FungibleBalance || state.state_type == StateType::Entitlement
            || state.state_type == StateType::MeteredResource),
        state.owner() == Some(text) <==> member(state.payload, "owner"@) == Some(Json::Str(text))
            && state.state_type == StateType::UniqueAsset,
        state.trade_id() == Some(text) <==> member(state.payload, "trade_id"@) == Some(
            Json::Str(text),
        ) && state.state_type == StateType::UniqueAsset,
{
}

// ---------------------------------------------------------------------------
// Documents.
// ---------------------------------------------------------------------------
/// A document holds what its value holds: scalars and texts as they are, the
/// items of an array in their order, and under a name the value of the first
/// entry of that name.
pub proof fn law_documents_hold_their_values(
    text: String,
    flag: bool,
    items: Vec<Value>,
    fields: Fields,
    i: int,
)
    ensures
        Value::Null@ == Json::Null,
        Value::String(text)@ == Json::Str(text@),
        Value::Bool(flag)@ == Json::Bool(flag),
        Value::Array(items)@ is Array,
        Value::Array(items)@->Array_0.len() == items@.len(),
        0 <= i < items@.len() ==> Value::Array(items)@->Array_0[i] == items@[i]@,
        Value::Object(fields)@ == Json::Object(fields@),
        forall|name: Seq<char>|
            fields@.contains_key(name) <==> exists|k: int|
                0 <= k < fields.entries@.len() && (#[trigger] fields.entries@[k]).0@ == name,
        0 <= i < fields.entries@.len() && (forall|k: int|
            0 <= k < i ==> (#[trigger] fields.entries@[k]).0@ != fields.entries@[i].0@)
            ==> fields@[fields.entries@[i].0@] == fields.entries@[i].1@,
{
    lemma_items(items@, i);
    assert forall|name: Seq<char>|
        fields@.contains_key(name) <==> exists|k: int|
            0 <= k < fields.entries@.len() && (#[trigger] fields.entries@[k]).0@ == name by {
        lemma_entries(fields.entries@, name, i);
    }
    if 0 <= i < fields.entries@.len() {
        lemma_entries(fields.entries@, fields.entries@[i].0@, i);
    }
}

proof fn lemma_items(items: Seq<Value>, i: int)
    ensures
        items_of(items).len() == items.len(),
        0 <= i < items.len() ==> items_of(items)[i] == json_of(items[i]),
    decreases items.len(),
{
    if items.len() > 0 {
        lemma_items(items.drop_last(), i);
    }
}

proof fn lemma_entries(entries: Seq<(String, Value)>, name: Seq<char>, i: int)
    ensures
        members_of(entries).contains_key(name) <==> exists|k: int|
            0 <= k < entries.len() && (#[trigger] entries[k]).0@ == name,
        0 <= i < entries.len() && entries[i].0@ == name && (forall|k: int|
            0 <= k < i ==> (#[trigger] entries[k]).0@ != name) ==> members_of(entries)[name]
            == json_of(entries[i].1),
    decreases entries.len(),
{
    if entries.len() > 0 {
        let rest = entries.drop_first();
        lemma_entries(rest, name, i - 1);
        if exists|k: int| 0 <= k < rest.len() && (#[trigger] rest[k]).0@ == name {
            let k = choose|k: int| 0 <= k < rest.len() && (#[trigger] rest[k]).0@ == name;
            assert(entries[k + 1].0@ == name);
        }
        if exists|k: int| 0 <= k < entries.len() && (#[trigger] entries[k]).0@ == name {
            let k = choose|k: int| 0 <= k < entries.len() && (#[trigger] entries[k]).0@ == name;
            if k > 0 {
                assert(rest[k - 1].0@ == name);
            }
        }
        if 0 < i < entries.len() && (forall|k: int|
            0 <= k < i ==> (#[trigger] entries[k]).0@ != name) {
            assert forall|k: int| 0 <= k < i - 1 implies (#[trigger] rest[k]).0@ != name by {
                assert(entries[k + 1].0@ != name);
            }
            assert(entries[0].0@ != name);
        }
    }
}

} // verus!
