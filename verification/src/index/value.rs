//! Value legs: balance transfers that settle intents declare.
//!
//! A batch's balance transfers are recovered as pairs of a debit and a credit
//! event of one intent. The declarations of its settle intents are matched to
//! them by amount, balance and recipient: both lists are put in the order of
//! these keys, and a declaration and a pair at the same place belong together
//! when their keys agree.
use vstd::prelude::*;

use crate::amount::{amount_of, Amount};
use crate::domain::commit::CommitRef;
use crate::domain::event::Event;
use crate::domain::ids::{EventId, ResourceId, SubjectId, TenantId};
use crate::domain::intent::{value_leg_declared, Intent};
use crate::domain::state::{ResourceState, StateContent, StateType};
use crate::executor::atomicity::group;
use crate::index::error::IndexError;
use crate::index::order::{in_order, lemma_placed_at};
use crate::index::trade::{event_texts, LegContent, TradeValueLeg};
use crate::json::{as_text, lookup, member, Json, Value};
use crate::text::{
    distinct, insert_sorted, join3, join5, lemma_distinct, lists, same_text, text_less, text_lt,
    texts,
};

verus! {

/// Whether a result complains about a value leg or pair in the given words.
pub open spec fn value_refused<T>(r: Result<T, IndexError>, complaint: Seq<char>) -> bool {
    match r {
        Err(IndexError::MalformedValue(message)) => message@ == complaint,
        _ => false,
    }
}

// ---------------------------------------------------------------------------
// Keys.
// ---------------------------------------------------------------------------
/// What a declaration and a pair are matched by.
#[derive(Debug, Clone)]
pub struct LegKey {
    /// The amount.
    pub amount: u128,
    /// The balance.
    pub resource: String,
    /// The recipient, if known.
    pub recipient: Option<String>,
}

/// The content of a key.
#[verifier::ext_equal]
pub struct KeyContent {
    /// The amount.
    pub amount: u128,
    /// The balance.
    pub resource: Seq<char>,
    /// The recipient, if known.
    pub recipient: Option<Seq<char>>,
}

impl View for LegKey {
    type V = KeyContent;

    open spec fn view(&self) -> KeyContent {
        KeyContent {
            amount: self.amount,
            resource: self.resource@,
            recipient: match self.recipient {
                Some(text) => Some(text@),
                None => None,
            },
        }
    }
}

/// The order of optional recipients: an unknown one comes first.
pub open spec fn recipient_lt(a: Option<Seq<char>>, b: Option<Seq<char>>) -> bool {
    match (a, b) {
        (None, Some(_)) => true,
        (Some(x), Some(y)) => text_lt(x, y),
        _ => false,
    }
}

/// The order of keys: by amount, then balance, then recipient.
pub open spec fn leg_key_lt(a: KeyContent, b: KeyContent) -> bool {
    a.amount < b.amount || (a.amount == b.amount && (text_lt(a.resource, b.resource) || (a.resource
        == b.resource && recipient_lt(a.recipient, b.recipient))))
}

impl LegKey {
    fn precedes(&self, other: &LegKey) -> (r: bool)
        ensures
            r == leg_key_lt(self@, other@),
    {
        if self.amount != other.amount {
            return self.amount < other.amount;
        }
        if !same_text(self.resource.as_str(), other.resource.as_str()) {
            return text_less(self.resource.as_str(), other.resource.as_str());
        }
        proof {
            crate::text::lemma_text_lt_irreflexive(self.resource@);
        }
        match (&self.recipient, &other.recipient) {
            (None, Some(_)) => true,
            (Some(a), Some(b)) => text_less(a.as_str(), b.as_str()),
            _ => false,
        }
    }

    fn agrees(&self, other: &LegKey) -> (r: bool)
        ensures
            r == (self@ == other@),
    {
        let same_recipient = match (&self.recipient, &other.recipient) {
            (None, None) => true,
            (Some(a), Some(b)) => same_text(a.as_str(), b.as_str()),
            _ => false,
        };
        self.amount == other.amount && same_text(self.resource.as_str(), other.resource.as_str())
            && same_recipient
    }
}

// ---------------------------------------------------------------------------
// Pairs.
// ---------------------------------------------------------------------------
/// A debit and a credit of one intent.
#[derive(Debug)]
pub struct RecoveredValuePair {
    /// What the pair is matched by.
    pub key: LegKey,
    /// The two events, in text order.
    pub event_ids: Vec<EventId>,
    /// The tenant.
    pub tenant: TenantId,
}

/// The content of a pair.
#[verifier::ext_equal]
pub struct PairContent {
    /// What the pair is matched by.
    pub key: KeyContent,
    /// The two events.
    pub event_ids: Seq<Seq<char>>,
    /// The tenant.
    pub tenant: Seq<char>,
}

impl View for RecoveredValuePair {
    type V = PairContent;

    open spec fn view(&self) -> PairContent {
        PairContent {
            key: self.key@,
            event_ids: event_texts(self.event_ids@),
            tenant: self.tenant.0@,
        }
    }
}

/// The contents of pairs.
pub open spec fn pair_contents(pairs: Seq<RecoveredValuePair>) -> Seq<PairContent> {
    pairs.map_values(|pair: RecoveredValuePair| pair@)
}

/// The balance that a state records: zero when it records none, nothing when
/// what it records is not an amount.
pub open spec fn balance_in(state: StateContent) -> Option<u128> {
    if state.state_type == StateType::FungibleBalance {
        match member(state.payload, "balance"@) {
            None => Some(0),
            Some(Json::Str(text)) => amount_of(text),
            Some(_) => None,
        }
    } else {
        Some(0)
    }
}

/// A text unless it is empty.
pub open spec fn filled(text: Option<Seq<char>>) -> Option<Seq<char>> {
    match text {
        Some(t) => if t.len() > 0 {
            Some(t)
        } else {
            None
        },
        None => None,
    }
}

/// Whether an intent's events begin with a balance transfer.
pub open spec fn moves_value(events: Seq<Event>, intent_id: Seq<char>) -> bool {
    group(events, intent_id).len() > 0 && group(events, intent_id)[0].operation.0@
        == "balance.transfer"@
}

/// By how much an event lowers a balance.
pub open spec fn debit_of(event: Event) -> nat {
    let before = balance_in(event.before.state@)->0;
    let after = balance_in(event.after.state@)->0;
    if before > after {
        (before - after) as nat
    } else {
        0
    }
}

/// Whether an event raises a balance.
pub open spec fn credits(event: Event) -> bool {
    balance_in(event.after.state@)->0 > balance_in(event.before.state@)->0
}

/// Whether both balances of an event are amounts.
pub open spec fn balances_sound(event: Event) -> bool {
    balance_in(event.before.state@) is Some && balance_in(event.after.state@) is Some
}

/// What is wrong with an intent's balance transfer, if anything.
pub open spec fn pair_complaint(events: Seq<Event>, intent_id: Seq<char>) -> Option<Seq<char>> {
    let members = group(events, intent_id);
    if !moves_value(events, intent_id) {
        None
    } else if members.len() != 2 {
        Some(
            "balance.transfer intent `"@ + intent_id + "` is not an atomic debit + credit pair"@,
        )
    } else if !balances_sound(members[0]) || !balances_sound(members[1]) {
        Some("malformed `balance` amount"@)
    } else if debit_of(members[0]) + debit_of(members[1]) > u128::MAX {
        Some("debit overflow"@)
    } else {
        None
    }
}

/// The recipient of a pair: the subject of the last event that raises a
/// balance, if it names one.
pub open spec fn recipient_of(first: Event, second: Event) -> Option<Seq<char>> {
    if credits(second) {
        filled(second.after.state@.subject())
    } else if credits(first) {
        filled(first.after.state@.subject())
    } else {
        None
    }
}

/// Two texts in order.
pub open spec fn two_in_order(a: Seq<char>, b: Seq<char>) -> Seq<Seq<char>> {
    if text_lt(b, a) {
        seq![b, a]
    } else {
        seq![a, b]
    }
}

/// The pair of two events.
pub open spec fn pair_of(first: Event, second: Event) -> PairContent {
    PairContent {
        key: KeyContent {
            amount: (debit_of(first) + debit_of(second)) as u128,
            resource: first.resource_id.0@,
            recipient: recipient_of(first, second),
        },
        event_ids: two_in_order(first.event_id.0@, second.event_id.0@),
        tenant: first.tenant_id.0@,
    }
}

/// The pairs of the given intents, in their order.
pub open spec fn pairs_along(events: Seq<Event>, intent_ids: Seq<Seq<char>>) -> Seq<PairContent>
    decreases intent_ids.len(),
{
    if intent_ids.len() == 0 {
        Seq::empty()
    } else {
        let earlier = pairs_along(events, intent_ids.drop_last());
        if moves_value(events, intent_ids.last()) {
            let members = group(events, intent_ids.last());
            earlier.push(pair_of(members[0], members[1]))
        } else {
            earlier
        }
    }
}

/// The intent ids of events.
pub open spec fn intents_of(events: Seq<Event>) -> Seq<Seq<char>> {
    events.map_values(|event: Event| event.intent_id.0@)
}

/// The pairs of a batch, in the order of their intents.
pub open spec fn pairs_in(events: Seq<Event>) -> Seq<PairContent> {
    pairs_along(events, distinct(intents_of(events)))
}

/// Whether an intent is the first, in text order, with a faulty transfer.
pub open spec fn least_faulty_pair(events: Seq<Event>, intent_id: Seq<char>) -> bool {
    pair_complaint(events, intent_id) is Some && forall|other: Seq<char>|
        #[trigger] pair_complaint(events, other) is Some ==> !text_lt(other, intent_id)
}

/// Whether all balance transfers of a batch are sound.
pub open spec fn pairs_sound(events: Seq<Event>) -> bool {
    forall|intent_id: Seq<char>| #[trigger] pair_complaint(events, intent_id) is None
}

fn commitment_amount(state: &ResourceState) -> (r: Option<Amount>)
    ensures
        match balance_in(state@) {
            Some(n) => r is Some && r->0.value == n,
            None => r is None,
        },
{
    match state.state_type {
        StateType::FungibleBalance => match state.payload.get("balance") {
            None => Some(Amount::zero()),
            Some(Value::String(text)) => Amount::try_from_str(text.as_str()),
            Some(_) => None,
        },
        _ => Some(Amount::zero()),
    }
}

fn members<'a>(events: &'a Vec<Event>, intent_id: &str) -> (r: Vec<&'a Event>)
    ensures
        r@.len() == group(events@, intent_id@).len(),
        forall|k: int| 0 <= k < r@.len() ==> *(#[trigger] r@[k]) == group(events@, intent_id@)[k],
{
    let mut found: Vec<&'a Event> = Vec::new();
    let mut i: usize = 0;
    assert(events@.take(0) =~= Seq::empty());
    while i < events.len()
        invariant
            i <= events@.len(),
            found@.len() == group(events@.take(i as int), intent_id@).len(),
            forall|k: int|
                0 <= k < found@.len() ==> *(#[trigger] found@[k]) == group(
                    events@.take(i as int),
                    intent_id@,
                )[k],
        decreases events@.len() - i,
    {
        assert(events@.take(i + 1).drop_last() =~= events@.take(i as int));
        assert(events@.take(i + 1).last() == events@[i as int]);
        if same_text(events[i].intent_id.as_str(), intent_id) {
            found.push(&events[i]);
        }
        i = i + 1;
    }
    assert(events@.take(i as int) =~= events@);
    found
}

/// A copy of a text unless it is empty.
pub(crate) fn nonempty(text: Option<&str>) -> (r: Option<String>)
    ensures
        match (text, r) {
            (Some(t), Some(s)) => t@.len() > 0 && s@ == t@,
            (Some(t), None) => t@.len() == 0,
            (None, None) => true,
            _ => false,
        },
{
    match text {
        Some(t) => if t.is_empty() {
            None
        } else {
            Some(t.to_owned())
        },
        None => None,
    }
}

fn balances(event: &Event) -> (r: Option<(Amount, Amount)>)
    ensures
        match r {
            Some((before, after)) => balance_in(event.before.state@) == Some(before.value)
                && balance_in(event.after.state@) == Some(after.value),
            None => !balances_sound(*event),
        },
{
    match (commitment_amount(&event.before.state), commitment_amount(&event.after.state)) {
        (Some(before), Some(after)) => Some((before, after)),
        _ => None,
    }
}

fn recover_pair(first: &Event, second: &Event) -> (r: Result<RecoveredValuePair, IndexError>)
    ensures
        if !balances_sound(*first) || !balances_sound(*second) {
            value_refused(r, "malformed `balance` amount"@)
        } else if debit_of(*first) + debit_of(*second) > u128::MAX {
            value_refused(r, "debit overflow"@)
        } else {
            r matches Ok(pair) && pair@ == pair_of(*first, *second)
        },
{
    let (first_before, first_after) = match balances(first) {
        Some(read) => read,
        None => return Err(IndexError::MalformedValue("malformed `balance` amount".to_owned())),
    };
    let (second_before, second_after) = match balances(second) {
        Some(read) => read,
        None => return Err(IndexError::MalformedValue("malformed `balance` amount".to_owned())),
    };
    let mut debit = Amount::zero();
    let mut recipient: Option<String> = None;
    if first_before.value > first_after.value {
        debit = Amount::from_u128(first_before.value - first_after.value);
    } else if first_after.value > first_before.value {
        recipient = nonempty(first.after.state.subject());
    }
    if second_before.value > second_after.value {
        let delta = Amount::from_u128(second_before.value - second_after.value);
        match debit.checked_add(delta) {
            Some(sum) => {
                debit = sum;
            },
            None => return Err(IndexError::MalformedValue("debit overflow".to_owned())),
        }
    } else if second_after.value > second_before.value {
        recipient = nonempty(second.after.state.subject());
    }
    let mut event_ids: Vec<EventId> = Vec::new();
    if text_less(second.event_id.as_str(), first.event_id.as_str()) {
        event_ids.push(second.event_id.clone());
        event_ids.push(first.event_id.clone());
    } else {
        event_ids.push(first.event_id.clone());
        event_ids.push(second.event_id.clone());
    }
    let pair = RecoveredValuePair {
        key: LegKey { amount: debit.value, resource: first.resource_id.0.clone(), recipient },
        event_ids,
        tenant: first.tenant_id.clone(),
    };
    assert(pair@ =~= pair_of(*first, *second)) by {
        assert(event_texts(pair.event_ids@) =~= two_in_order(
            first.event_id.0@,
            second.event_id.0@,
        ));
    }
    Ok(pair)
}

fn intent_ids(events: &Vec<Event>) -> (r: Vec<String>)
    ensures
        lists(texts(r@), intents_of(events@)),
{
    let mut ids: Vec<String> = Vec::new();
    let mut i: usize = 0;
    let ghost wanted = intents_of(events@);
    while i < events.len()
        invariant
            i <= events@.len(),
            wanted == intents_of(events@),
            lists(texts(ids@), wanted.take(i as int)),
        decreases events@.len() - i,
    {
        let ghost before = texts(ids@);
        insert_sorted(&mut ids, events[i].intent_id.as_str());
        proof {
            let id = events@[i as int].intent_id.0@;
            assert(wanted.take(i + 1) =~= wanted.take(i as int).push(id));
            lemma_push_contains(wanted.take(i as int), id);
        }
        i = i + 1;
    }
    assert(wanted.take(i as int) =~= wanted);
    ids
}

/// A list with one more item contains that item and the others.
pub(crate) proof fn lemma_push_contains(list: Seq<Seq<char>>, item: Seq<char>)
    ensures
        forall|x: Seq<char>|
            #[trigger] list.push(item).contains(x) <==> list.contains(x) || x == item,
{
    assert forall|x: Seq<char>|
        #[trigger] list.push(item).contains(x) <==> list.contains(x) || x == item by {
        if list.contains(x) {
            let k = choose|k: int| 0 <= k < list.len() && list[k] == x;
            assert(list.push(item)[k] == x);
        }
        assert(list.push(item)[list.len() as int] == item);
        if list.push(item).contains(x) {
            let k = choose|k: int| 0 <= k < list.push(item).len() && list.push(item)[k] == x;
            if k < list.len() {
                assert(list[k] == x);
            }
        }
    }
}

/// An intent with events among the given ones is one of their intents.
proof fn lemma_group_listed(events: Seq<Event>, intent_id: Seq<char>)
    requires
        group(events, intent_id).len() > 0,
    ensures
        intents_of(events).contains(intent_id),
    decreases events.len(),
{
    if events.last().intent_id.0@ == intent_id {
        assert(intents_of(events)[events.len() - 1] == intent_id);
    } else {
        lemma_group_listed(events.drop_last(), intent_id);
        let k = choose|k: int|
            0 <= k < events.len() - 1 && intents_of(events.drop_last())[k] == intent_id;
        assert(intents_of(events)[k] == intent_id);
    }
}

/// Recovers the balance transfers of a batch.
pub fn recover_value_pairs(events: &Vec<Event>) -> (r: Result<Vec<RecoveredValuePair>, IndexError>)
    ensures
        match r {
            Ok(pairs) => pairs_sound(events@) && pair_contents(pairs@) == pairs_in(events@),
            Err(_) => exists|intent_id: Seq<char>| #[trigger]
                least_faulty_pair(events@, intent_id) && value_refused(
                    r,
                    pair_complaint(events@, intent_id)->0,
                ),
        },
{
    let ids = intent_ids(events);
    let ghost order = texts(ids@);
    proof {
        lemma_distinct(order, intents_of(events@));
    }
    let mut pairs: Vec<RecoveredValuePair> = Vec::new();
    let mut i: usize = 0;
    assert(order.take(0) =~= Seq::empty());
    assert(pair_contents(pairs@) =~= pairs_along(events@, order.take(0)));
    while i < ids.len()
        invariant
            i <= ids@.len(),
            order == texts(ids@),
            lists(order, intents_of(events@)),
            pair_contents(pairs@) == pairs_along(events@, order.take(i as int)),
            forall|k: int| 0 <= k < i ==> pair_complaint(events@, #[trigger] order[k]) is None,
        decreases ids@.len() - i,
    {
        let ghost id = order[i as int];
        assert(id == ids@[i as int]@);
        let found = members(events, ids[i].as_str());
        proof {
            assert(order.take(i + 1).drop_last() =~= order.take(i as int));
            assert(order.take(i + 1).last() == id);
        }
        if found.len() > 0 && found[0].operation.is("balance.transfer") {
            assert(moves_value(events@, id));
            if found.len() != 2 {
                proof {
                    lemma_first_faulty(events@, order, i as int);
                }
                return Err(
                    IndexError::MalformedValue(
                        join3(
                            "balance.transfer intent `",
                            ids[i].as_str(),
                            "` is not an atomic debit + credit pair",
                        ),
                    ),
                );
            }
            let ghost before = pair_contents(pairs@);
            match recover_pair(found[0], found[1]) {
                Ok(pair) => {
                    pairs.push(pair);
                    assert(pair_contents(pairs@) =~= before.push(pair@));
                },
                Err(failure) => {
                    proof {
                        lemma_first_faulty(events@, order, i as int);
                    }
                    return Err(failure);
                },
            }
        }
        i = i + 1;
    }
    proof {
        assert(order.take(i as int) =~= order);
        assert forall|id: Seq<char>| #[trigger] pair_complaint(events@, id) is None by {
            if moves_value(events@, id) {
                lemma_group_listed(events@, id);
                assert(order.contains(id));
                let k = choose|k: int| 0 <= k < order.len() && order[k] == id;
                assert(pair_complaint(events@, order[k]) is None);
            }
        }
    }
    Ok(pairs)
}

/// The first faulty intent of the ordered list is the least faulty one.
proof fn lemma_first_faulty(events: Seq<Event>, order: Seq<Seq<char>>, at: int)
    requires
        lists(order, intents_of(events)),
        0 <= at < order.len(),
        pair_complaint(events, order[at]) is Some,
        forall|k: int| 0 <= k < at ==> pair_complaint(events, #[trigger] order[k]) is None,
    ensures
        least_faulty_pair(events, order[at]),
{
    assert forall|other: Seq<char>| #[trigger]
        pair_complaint(events, other) is Some implies !text_lt(other, order[at]) by {
        lemma_group_listed(events, other);
        assert(order.contains(other));
        let k = choose|k: int| 0 <= k < order.len() && order[k] == other;
        if k > at {
            crate::text::lemma_text_lt_asymmetric(order[at], order[k]);
        } else if k < at {
            assert(pair_complaint(events, order[k]) is None);
        } else {
            crate::text::lemma_text_lt_irreflexive(other);
        }
    }
}

// ---------------------------------------------------------------------------
// Declarations.
// ---------------------------------------------------------------------------
/// A value leg that a settle intent declares.
#[derive(Debug)]
pub struct DeclaredValueLeg {
    /// What the declaration is matched by.
    pub key: LegKey,
    /// The trade.
    pub trade_id: String,
    /// The declared amount.
    pub amount: String,
    /// The declared recipient.
    pub to_subject: SubjectId,
}

/// The content of a declaration.
#[verifier::ext_equal]
pub struct DeclarationContent {
    /// What the declaration is matched by.
    pub key: KeyContent,
    /// The trade.
    pub trade_id: Seq<char>,
    /// The declared amount.
    pub amount: Seq<char>,
    /// The declared recipient.
    pub to_subject: Seq<char>,
}

impl View for DeclaredValueLeg {
    type V = DeclarationContent;

    open spec fn view(&self) -> DeclarationContent {
        DeclarationContent {
            key: self.key@,
            trade_id: self.trade_id@,
            amount: self.amount@,
            to_subject: self.to_subject.0@,
        }
    }
}

/// The contents of declarations.
pub open spec fn declaration_contents(list: Seq<DeclaredValueLeg>) -> Seq<DeclarationContent> {
    list.map_values(|declared: DeclaredValueLeg| declared@)
}

/// A non-empty text input of an intent.
pub open spec fn input_text(intent: Intent, name: Seq<char>) -> Option<Seq<char>> {
    filled(as_text(lookup(intent.inputs@, name)))
}

/// The complaint about a missing text input.
pub open spec fn input_complaint(intent: Intent, name: Seq<char>) -> Seq<char> {
    "settle intent `"@ + intent.intent_id.0@ + "` is missing a non-empty `"@ + name + "` input"@
}

/// What is wrong with an intent's declaration, if anything.
pub open spec fn declaration_complaint(intent: Intent) -> Option<Seq<char>> {
    if !value_leg_declared(intent) {
        None
    } else if input_text(intent, "value_resource"@) is None {
        Some(input_complaint(intent, "value_resource"@))
    } else if input_text(intent, "value_amount"@) is None {
        Some(input_complaint(intent, "value_amount"@))
    } else if input_text(intent, "value_to_subject"@) is None {
        Some(input_complaint(intent, "value_to_subject"@))
    } else if input_text(intent, "trade_id"@) is None {
        Some(input_complaint(intent, "trade_id"@))
    } else if amount_of(input_text(intent, "value_amount"@)->0) is None {
        Some("malformed value_amount `"@ + input_text(intent, "value_amount"@)->0 + "`"@)
    } else {
        None
    }
}

/// The declaration of an intent.
pub open spec fn declaration_of(intent: Intent) -> DeclarationContent {
    DeclarationContent {
        key: KeyContent {
            amount: amount_of(input_text(intent, "value_amount"@)->0)->0,
            resource: input_text(intent, "value_resource"@)->0,
            recipient: input_text(intent, "value_to_subject"@),
        },
        trade_id: input_text(intent, "trade_id"@)->0,
        amount: input_text(intent, "value_amount"@)->0,
        to_subject: input_text(intent, "value_to_subject"@)->0,
    }
}

/// The declarations of intents, in their order.
pub open spec fn declarations(intents: Seq<Intent>) -> Seq<DeclarationContent>
    decreases intents.len(),
{
    if intents.len() == 0 {
        Seq::empty()
    } else {
        let earlier = declarations(intents.drop_last());
        if value_leg_declared(intents.last()) {
            earlier.push(declaration_of(intents.last()))
        } else {
            earlier
        }
    }
}

/// Whether the declaration at a position is the first faulty one.
pub open spec fn first_faulty_declaration(intents: Seq<Intent>, at: int) -> bool {
    0 <= at < intents.len() && declaration_complaint(intents[at]) is Some && forall|k: int|
        0 <= k < at ==> declaration_complaint(#[trigger] intents[k]) is None
}

/// Whether all declarations are sound.
pub open spec fn declarations_sound(intents: Seq<Intent>) -> bool {
    forall|k: int| 0 <= k < intents.len() ==> declaration_complaint(#[trigger] intents[k]) is None
}

/// Reads a required text input.
pub fn intent_str(intent: &Intent, name: &str) -> (r: Result<String, IndexError>)
    ensures
        match input_text(*intent, name@) {
            Some(text) => r matches Ok(s) && s@ == text,
            None => value_refused(r, input_complaint(*intent, name@)),
        },
{
    let found: Option<&str> = match intent.inputs.get(name) {
        Some(value) => value.as_str(),
        None => None,
    };
    match nonempty(found) {
        Some(text) => Ok(text),
        None => Err(
            IndexError::MalformedValue(
                join5(
                    "settle intent `",
                    intent.intent_id.as_str(),
                    "` is missing a non-empty `",
                    name,
                    "` input",
                ),
            ),
        ),
    }
}

fn declaration(intent: &Intent) -> (r: Result<DeclaredValueLeg, IndexError>)
    requires
        value_leg_declared(*intent),
    ensures
        match declaration_complaint(*intent) {
            Some(complaint) => value_refused(r, complaint),
            None => r matches Ok(declared) && declared@ == declaration_of(*intent),
        },
{
    let resource = match intent_str(intent, "value_resource") {
        Ok(text) => text,
        Err(failure) => return Err(failure),
    };
    let amount = match intent_str(intent, "value_amount") {
        Ok(text) => text,
        Err(failure) => return Err(failure),
    };
    let to_subject = match intent_str(intent, "value_to_subject") {
        Ok(text) => text,
        Err(failure) => return Err(failure),
    };
    let trade_id = match intent_str(intent, "trade_id") {
        Ok(text) => text,
        Err(failure) => return Err(failure),
    };
    let value = match Amount::try_from_str(amount.as_str()) {
        Some(value) => value,
        None => return Err(
            IndexError::MalformedValue(join3("malformed value_amount `", amount.as_str(), "`")),
        ),
    };
    let key = LegKey { amount: value.value, resource, recipient: Some(to_subject.clone()) };
    let declared = DeclaredValueLeg { key, trade_id, amount, to_subject: SubjectId(to_subject) };
    assert(declared@ =~= declaration_of(*intent));
    Ok(declared)
}

fn declared_legs(intents: &Vec<Intent>) -> (r: Result<Vec<DeclaredValueLeg>, IndexError>)
    ensures
        match r {
            Ok(list) => declarations_sound(intents@) && declaration_contents(list@)
                == declarations(intents@),
            Err(_) => exists|at: int| #[trigger]
                first_faulty_declaration(intents@, at) && value_refused(
                    r,
                    declaration_complaint(intents@[at])->0,
                ),
        },
{
    let mut list: Vec<DeclaredValueLeg> = Vec::new();
    let mut i: usize = 0;
    assert(intents@.take(0) =~= Seq::empty());
    assert(declaration_contents(list@) =~= declarations(intents@.take(0)));
    while i < intents.len()
        invariant
            i <= intents@.len(),
            declaration_contents(list@) == declarations(intents@.take(i as int)),
            forall|k: int|
                0 <= k < i ==> declaration_complaint(#[trigger] intents@[k]) is None,
        decreases intents@.len() - i,
    {
        proof {
            assert(intents@.take(i + 1).drop_last() =~= intents@.take(i as int));
            assert(intents@.take(i + 1).last() == intents@[i as int]);
        }
        if intents[i].declares_value_leg() {
            let ghost before = declaration_contents(list@);
            match declaration(&intents[i]) {
                Ok(declared) => {
                    list.push(declared);
                    assert(declaration_contents(list@) =~= before.push(declared@));
                },
                Err(failure) => {
                    assert(first_faulty_declaration(intents@, i as int));
                    return Err(failure);
                },
            }
        }
        i = i + 1;
    }
    assert(intents@.take(i as int) =~= intents@);
    Ok(list)
}

// ---------------------------------------------------------------------------
// Matching.
// ---------------------------------------------------------------------------
/// The order of declarations: that of their keys.
pub open spec fn declaration_lt() -> spec_fn(DeclarationContent, DeclarationContent) -> bool {
    |a: DeclarationContent, b: DeclarationContent| leg_key_lt(a.key, b.key)
}

/// The order of pairs: that of their keys.
pub open spec fn pair_lt() -> spec_fn(PairContent, PairContent) -> bool {
    |a: PairContent, b: PairContent| leg_key_lt(a.key, b.key)
}

/// The value leg of a declaration and its pair.
pub open spec fn leg_of(declared: DeclarationContent, pair: PairContent, commit: CommitRef) -> (
    Seq<char>,
    LegContent,
) {
    (
        declared.trade_id,
        LegContent {
            resource: pair.key.resource,
            amount: declared.amount,
            to_subject: declared.to_subject,
            event_ids: pair.event_ids,
            tenant: pair.tenant,
            commit,
        },
    )
}

/// The value legs of declarations and pairs in the order of their keys, with
/// the trades that they belong to: while both lists have a first item, two
/// that share their key make a leg, and otherwise the smaller one is passed
/// over.
pub open spec fn legs_merged(
    declared: Seq<DeclarationContent>,
    pairs: Seq<PairContent>,
    commit: CommitRef,
) -> Seq<(Seq<char>, LegContent)>
    decreases declared.len() + pairs.len(),
{
    if declared.len() == 0 || pairs.len() == 0 {
        Seq::empty()
    } else if declared[0].key == pairs[0].key {
        seq![leg_of(declared[0], pairs[0], commit)] + legs_merged(
            declared.skip(1),
            pairs.skip(1),
            commit,
        )
    } else if leg_key_lt(declared[0].key, pairs[0].key) {
        legs_merged(declared.skip(1), pairs, commit)
    } else {
        legs_merged(declared, pairs.skip(1), commit)
    }
}

/// The value legs of declarations and pairs, with the trades that they
/// belong to. What is left unmatched belongs to other batches.
pub open spec fn legs_between(
    intents: Seq<Intent>,
    pairs: Seq<PairContent>,
    commit: CommitRef,
) -> Seq<(Seq<char>, LegContent)> {
    legs_merged(
        in_order(declarations(intents), declaration_lt()),
        in_order(pairs, pair_lt()),
        commit,
    )
}

/// The contents of value legs with their trades.
pub open spec fn attributed(list: Seq<(String, TradeValueLeg)>) -> Seq<(Seq<char>, LegContent)> {
    list.map_values(|entry: (String, TradeValueLeg)| (entry.0@, entry.1@))
}

fn sort_declarations(list: Vec<DeclaredValueLeg>) -> (r: Vec<DeclaredValueLeg>)
    ensures
        declaration_contents(r@) == in_order(declaration_contents(list@), declaration_lt()),
{
    let ghost items = declaration_contents(list@);
    let mut rest = list;
    let mut sorted: Vec<DeclaredValueLeg> = Vec::new();
    let ghost mut done: int = 0;
    assert(items.take(0) =~= Seq::empty());
    assert(declaration_contents(sorted@) =~= in_order(items.take(0), declaration_lt()));
    assert(items.skip(0) =~= items);
    while rest.len() > 0
        invariant
            0 <= done <= items.len(),
            declaration_contents(rest@) == items.skip(done),
            declaration_contents(sorted@) == in_order(items.take(done), declaration_lt()),
        decreases rest@.len(),
    {
        let ghost before = declaration_contents(sorted@);
        let ghost left = declaration_contents(rest@);
        assert(left.len() == rest@.len());
        assert(left[0] == items.skip(done)[0]);
        let item = rest.remove(0);
        let mut at: usize = sorted.len();
        while at > 0 && item.key.precedes(&sorted[at - 1].key)
            invariant
                at <= sorted@.len(),
                before == declaration_contents(sorted@),
                forall|k: int|
                    at <= k < sorted@.len() ==> declaration_lt()(item@, #[trigger] before[k]),
            decreases at,
        {
            assert(before[at - 1] == sorted@[at - 1]@);
            at = at - 1;
        }
        proof {
            if at > 0 {
                assert(before[at - 1] == sorted@[at - 1]@);
            }
            lemma_placed_at(before, item@, declaration_lt(), at as int);
        }
        sorted.insert(at, item);
        proof {
            assert(declaration_contents(sorted@) =~= before.insert(at as int, item@));
            assert(left[0] == item@);
            assert(items[done] == item@);
            assert(items.take(done + 1).drop_last() =~= items.take(done));
            assert(items.take(done + 1).last() == items[done]);
            assert(declaration_contents(rest@) =~= items.skip(done + 1)) by {
                assert(declaration_contents(rest@) =~= left.skip(1));
            }
            done = done + 1;
        }
    }
    assert(items.take(done) =~= items);
    sorted
}

fn sort_pairs(list: Vec<RecoveredValuePair>) -> (r: Vec<RecoveredValuePair>)
    ensures
        pair_contents(r@) == in_order(pair_contents(list@), pair_lt()),
{
    let ghost items = pair_contents(list@);
    let mut rest = list;
    let mut sorted: Vec<RecoveredValuePair> = Vec::new();
    let ghost mut done: int = 0;
    assert(items.take(0) =~= Seq::empty());
    assert(pair_contents(sorted@) =~= in_order(items.take(0), pair_lt()));
    assert(items.skip(0) =~= items);
    while rest.len() > 0
        invariant
            0 <= done <= items.len(),
            pair_contents(rest@) == items.skip(done),
            pair_contents(sorted@) == in_order(items.take(done), pair_lt()),
        decreases rest@.len(),
    {
        let ghost before = pair_contents(sorted@);
        let ghost left = pair_contents(rest@);
        assert(left.len() == rest@.len());
        assert(left[0] == items.skip(done)[0]);
        let item = rest.remove(0);
        let mut at: usize = sorted.len();
        while at > 0 && item.key.precedes(&sorted[at - 1].key)
            invariant
                at <= sorted@.len(),
                before == pair_contents(sorted@),
                forall|k: int| at <= k < sorted@.len() ==> pair_lt()(item@, #[trigger] before[k]),
            decreases at,
        {
            assert(before[at - 1] == sorted@[at - 1]@);
            at = at - 1;
        }
        proof {
            if at > 0 {
                assert(before[at - 1] == sorted@[at - 1]@);
            }
            lemma_placed_at(before, item@, pair_lt(), at as int);
        }
        sorted.insert(at, item);
        proof {
            assert(pair_contents(sorted@) =~= before.insert(at as int, item@));
            assert(left[0] == item@);
            assert(items[done] == item@);
            assert(items.take(done + 1).drop_last() =~= items.take(done));
            assert(items.take(done + 1).last() == items[done]);
            assert(pair_contents(rest@) =~= items.skip(done + 1)) by {
                assert(pair_contents(rest@) =~= left.skip(1));
            }
            done = done + 1;
        }
    }
    assert(items.take(done) =~= items);
    sorted
}

fn copy_ids(ids: &Vec<EventId>) -> (r: Vec<EventId>)
    ensures
        event_texts(r@) == event_texts(ids@),
{
    let mut copies: Vec<EventId> = Vec::new();
    let mut i: usize = 0;
    while i < ids.len()
        invariant
            i <= ids@.len(),
            copies@ == ids@.take(i as int),
        decreases ids@.len() - i,
    {
        copies.push(ids[i].clone());
        assert(ids@.take(i + 1) =~= ids@.take(i as int).push(ids@[i as int]));
        i = i + 1;
    }
    assert(ids@.take(i as int) =~= ids@);
    copies
}

/// Matches the declarations of settle intents to the pairs of their batch.
pub fn match_value_legs(
    intents: &Vec<Intent>,
    pairs: Vec<RecoveredValuePair>,
    commit: &CommitRef,
) -> (r: Result<Vec<(String, TradeValueLeg)>, IndexError>)
    ensures
        match r {
            Ok(list) => declarations_sound(intents@) && attributed(list@) == legs_between(
                intents@,
                pair_contents(pairs@),
                *commit,
            ),
            Err(_) => exists|at: int| #[trigger]
                first_faulty_declaration(intents@, at) && value_refused(
                    r,
                    declaration_complaint(intents@[at])->0,
                ),
        },
{
    let declared = match declared_legs(intents) {
        Ok(list) => list,
        Err(failure) => return Err(failure),
    };
    let declared = sort_declarations(declared);
    let pairs = sort_pairs(pairs);
    let ghost wanted = declaration_contents(declared@);
    let ghost present = pair_contents(pairs@);
    let ghost all = legs_merged(wanted, present, *commit);
    let mut list: Vec<(String, TradeValueLeg)> = Vec::new();
    let mut i: usize = 0;
    let mut j: usize = 0;
    proof {
        assert(wanted.skip(0) =~= wanted);
        assert(present.skip(0) =~= present);
        assert(attributed(list@) + all =~= all);
    }
    while i < declared.len() && j < pairs.len()
        invariant
            i <= declared@.len(),
            j <= pairs@.len(),
            wanted == declaration_contents(declared@),
            present == pair_contents(pairs@),
            attributed(list@) + legs_merged(
                wanted.skip(i as int),
                present.skip(j as int),
                *commit,
            ) == all,
        decreases declared@.len() - i + pairs@.len() - j,
    {
        let ghost rest = wanted.skip(i as int);
        let ghost others = present.skip(j as int);
        proof {
            assert(rest[0] == declared@[i as int]@);
            assert(others[0] == pairs@[j as int]@);
            assert(rest.skip(1) =~= wanted.skip(i + 1));
            assert(others.skip(1) =~= present.skip(j + 1));
        }
        if declared[i].key.agrees(&pairs[j].key) {
            let ghost before = attributed(list@);
            let leg = TradeValueLeg {
                resource: ResourceId(pairs[j].key.resource.clone()),
                amount: declared[i].amount.clone(),
                to_subject: declared[i].to_subject.clone(),
                pair_event_ids: copy_ids(&pairs[j].event_ids),
                tenant: pairs[j].tenant.clone(),
                commit: commit.clone(),
            };
            let trade_id = declared[i].trade_id.clone();
            let ghost entry = (trade_id@, leg@);
            assert(entry == leg_of(rest[0], others[0], *commit));
            list.push((trade_id, leg));
            proof {
                let tail = legs_merged(rest.skip(1), others.skip(1), *commit);
                assert(attributed(list@) =~= before.push(entry));
                assert(before.push(entry) + tail =~= before + (seq![entry] + tail));
            }
            i = i + 1;
            j = j + 1;
        } else if declared[i].key.precedes(&pairs[j].key) {
            i = i + 1;
        } else {
            j = j + 1;
        }
    }
    assert(attributed(list@) + Seq::<(Seq<char>, LegContent)>::empty() =~= attributed(list@));
    Ok(list)
}

} // verus!
