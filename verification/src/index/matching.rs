//! What the matching of value legs comes to.
use vstd::prelude::*;

use crate::amount::amount_of;
use crate::domain::commit::CommitRef;
use crate::domain::intent::Intent;
use crate::index::laws::lemma_in_order_members;
use crate::index::order::{ascending, in_order, lemma_in_order, orders, placed};
use crate::index::trade::LegContent;
use crate::index::value::{
    declaration_complaint, declaration_lt, declarations, declarations_sound, leg_key_lt, leg_of,
    legs_between, legs_merged, pair_lt, recipient_lt, DeclarationContent, KeyContent, PairContent,
};
use crate::text::{
    lemma_text_lt_asymmetric, lemma_text_lt_irreflexive, lemma_text_lt_total,
    lemma_text_lt_transitive, text_lt,
};

verus! {

/// How often a key is declared.
pub open spec fn times_declared(declared: Seq<DeclarationContent>, key: KeyContent) -> nat {
    declared.map_values(|d: DeclarationContent| d.key).to_multiset().count(key)
}

/// How many pairs have a key.
pub open spec fn times_paired(pairs: Seq<PairContent>, key: KeyContent) -> nat {
    pairs.map_values(|p: PairContent| p.key).to_multiset().count(key)
}

/// The key by which a value leg was matched.
pub open spec fn key_of(leg: LegContent) -> KeyContent {
    KeyContent {
        amount: amount_of(leg.amount)->0,
        resource: leg.resource,
        recipient: Some(leg.to_subject),
    }
}

/// How many value legs have a key.
pub open spec fn times_matched(legs: Seq<(Seq<char>, LegContent)>, key: KeyContent) -> nat {
    legs.map_values(|entry: (Seq<char>, LegContent)| key_of(entry.1)).to_multiset().count(key)
}

/// The smaller of two numbers.
pub open spec fn fewer(a: nat, b: nat) -> nat {
    if a <= b {
        a
    } else {
        b
    }
}

/// Whether a declaration's key is made of what it declares.
pub open spec fn faithful(declared: DeclarationContent) -> bool {
    declared.key.amount == amount_of(declared.amount)->0 && declared.key.recipient == Some(
        declared.to_subject,
    )
}

proof fn lemma_recipient_order(a: Option<Seq<char>>, b: Option<Seq<char>>, c: Option<Seq<char>>)
    ensures
        recipient_lt(a, b) ==> !recipient_lt(b, a),
        a == b || recipient_lt(a, b) || recipient_lt(b, a),
        recipient_lt(a, b) && recipient_lt(b, c) ==> recipient_lt(a, c),
        !recipient_lt(a, a),
{
    if let (Some(x), Some(y)) = (a, b) {
        lemma_text_lt_total(x, y);
        if recipient_lt(a, b) {
            lemma_text_lt_asymmetric(x, y);
            if c is Some && recipient_lt(b, c) {
                lemma_text_lt_transitive(x, y, c->0);
            }
        }
    }
    if let Some(x) = a {
        lemma_text_lt_irreflexive(x);
    }
}

proof fn lemma_key_order(a: KeyContent, b: KeyContent, c: KeyContent)
    ensures
        leg_key_lt(a, b) ==> !leg_key_lt(b, a),
        a == b || leg_key_lt(a, b) || leg_key_lt(b, a),
        leg_key_lt(a, b) && leg_key_lt(b, c) ==> leg_key_lt(a, c),
        !leg_key_lt(a, a),
{
    lemma_recipient_order(a.recipient, b.recipient, c.recipient);
    lemma_text_lt_total(a.resource, b.resource);
    lemma_text_lt_irreflexive(a.resource);
    if text_lt(a.resource, b.resource) {
        lemma_text_lt_asymmetric(a.resource, b.resource);
        if text_lt(b.resource, c.resource) {
            lemma_text_lt_transitive(a.resource, b.resource, c.resource);
        }
    }
}

proof fn lemma_leg_orders()
    ensures
        orders(declaration_lt()),
        orders(pair_lt()),
{
    assert forall|a: DeclarationContent, b: DeclarationContent| #[trigger]
        declaration_lt()(a, b) implies !declaration_lt()(b, a) by {
        lemma_key_order(a.key, b.key, b.key);
    }
    assert forall|a: DeclarationContent, b: DeclarationContent, c: DeclarationContent|
        !(#[trigger] declaration_lt()(b, a)) && !(#[trigger] declaration_lt()(
            c,
            b,
        )) implies !declaration_lt()(c, a) by {
        lemma_key_order(a.key, b.key, c.key);
        lemma_key_order(c.key, a.key, b.key);
    }
    assert forall|a: PairContent, b: PairContent| #[trigger]
        pair_lt()(a, b) implies !pair_lt()(b, a) by {
        lemma_key_order(a.key, b.key, b.key);
    }
    assert forall|a: PairContent, b: PairContent, c: PairContent|
        !(#[trigger] pair_lt()(b, a)) && !(#[trigger] pair_lt()(c, b)) implies !pair_lt()(c, a) by {
        lemma_key_order(a.key, b.key, c.key);
        lemma_key_order(c.key, a.key, b.key);
    }
}

/// Placing an item adds what it maps to.
proof fn lemma_placed_mapped<T, U>(
    list: Seq<T>,
    item: T,
    less: spec_fn(T, T) -> bool,
    f: spec_fn(T) -> U,
)
    ensures
        placed(list, item, less).map_values(f).to_multiset() == list.map_values(
            f,
        ).to_multiset().insert(f(item)),
    decreases list.len(),
{
    broadcast use vstd::seq_lib::group_to_multiset_ensures;

    if list.len() > 0 && less(item, list.last()) {
        let short = list.drop_last();
        lemma_placed_mapped(short, item, less, f);
        assert(placed(short, item, less).push(list.last()).map_values(f) =~= placed(
            short,
            item,
            less,
        ).map_values(f).push(f(list.last())));
        assert(list.map_values(f) =~= short.map_values(f).push(f(list.last())));
        assert(placed(list, item, less).map_values(f).to_multiset() =~= list.map_values(
            f,
        ).to_multiset().insert(f(item)));
    } else {
        assert(list.push(item).map_values(f) =~= list.map_values(f).push(f(item)));
    }
}

/// Ordering keeps what the items map to.
proof fn lemma_in_order_mapped<T, U>(
    items: Seq<T>,
    less: spec_fn(T, T) -> bool,
    f: spec_fn(T) -> U,
)
    ensures
        in_order(items, less).map_values(f).to_multiset() == items.map_values(f).to_multiset(),
    decreases items.len(),
{
    broadcast use vstd::seq_lib::group_to_multiset_ensures;

    if items.len() > 0 {
        lemma_in_order_mapped(items.drop_last(), less, f);
        lemma_placed_mapped(in_order(items.drop_last(), less), items.last(), less, f);
        assert(items.map_values(f) =~= items.drop_last().map_values(f).push(f(items.last())));
    } else {
        assert(in_order(items, less).map_values(f) =~= items.map_values(f));
    }
}

/// The first item counts once.
proof fn lemma_first_counts<T, U>(items: Seq<T>, f: spec_fn(T) -> U, u: U)
    requires
        items.len() > 0,
    ensures
        items.map_values(f).to_multiset().count(u) == items.skip(1).map_values(
            f,
        ).to_multiset().count(u) + if f(items[0]) == u {
            1nat
        } else {
            0nat
        },
{
    broadcast use vstd::seq_lib::group_to_multiset_ensures;

    let rest = items.skip(1).map_values(f);
    assert(items.map_values(f) =~= seq![f(items[0])] + rest);
    vstd::seq_lib::lemma_multiset_commutative(seq![f(items[0])], rest);
    assert(seq![f(items[0])] =~= Seq::empty().push(f(items[0])));
    assert(seq![f(items[0])].to_multiset() =~= vstd::multiset::Multiset::empty().insert(
        f(items[0]),
    ));
}

/// What no item maps to counts nothing.
proof fn lemma_absent_counts_nothing<T, U>(items: Seq<T>, f: spec_fn(T) -> U, u: U)
    requires
        forall|i: int| 0 <= i < items.len() ==> f(#[trigger] items[i]) != u,
    ensures
        items.map_values(f).to_multiset().count(u) == 0,
{
    broadcast use vstd::seq_lib::group_to_multiset_ensures;

    let mapped = items.map_values(f);
    if mapped.contains(u) {
        let i = choose|i: int| 0 <= i < mapped.len() && mapped[i] == u;
        assert(f(items[i]) == u);
    }
}

proof fn lemma_merged_counts(
    declared: Seq<DeclarationContent>,
    pairs: Seq<PairContent>,
    commit: CommitRef,
    key: KeyContent,
)
    requires
        ascending(declared, declaration_lt()),
        ascending(pairs, pair_lt()),
        forall|i: int| 0 <= i < declared.len() ==> faithful(#[trigger] declared[i]),
    ensures
        times_matched(legs_merged(declared, pairs, commit), key) == fewer(
            times_declared(declared, key),
            times_paired(pairs, key),
        ),
    decreases declared.len() + pairs.len(),
{
    let by_declaration = |d: DeclarationContent| d.key;
    let by_pair = |p: PairContent| p.key;
    let by_leg = |entry: (Seq<char>, LegContent)| key_of(entry.1);
    let legs = legs_merged(declared, pairs, commit);
    if declared.len() == 0 || pairs.len() == 0 {
        lemma_absent_counts_nothing(legs, by_leg, key);
        if declared.len() == 0 {
            lemma_absent_counts_nothing(declared, by_declaration, key);
        } else {
            lemma_absent_counts_nothing(pairs, by_pair, key);
        }
        return ;
    }
    lemma_first_counts(declared, by_declaration, key);
    lemma_first_counts(pairs, by_pair, key);
    lemma_key_order(declared[0].key, pairs[0].key, key);
    if declared[0].key == pairs[0].key {
        lemma_merged_counts(declared.skip(1), pairs.skip(1), commit, key);
        let rest = legs_merged(declared.skip(1), pairs.skip(1), commit);
        lemma_first_counts(legs, by_leg, key);
        assert(legs.skip(1) =~= rest);
        assert(legs[0] == leg_of(declared[0], pairs[0], commit));
        assert(faithful(declared[0]));
        assert(key_of(legs[0].1) =~= declared[0].key);
    } else if leg_key_lt(declared[0].key, pairs[0].key) {
        lemma_merged_counts(declared.skip(1), pairs, commit, key);
        if key == declared[0].key {
            assert forall|j: int| 0 <= j < pairs.len() implies by_pair(#[trigger] pairs[j])
                != key by {
                if j > 0 {
                    assert(!pair_lt()(pairs[j], pairs[0]));
                }
            }
            lemma_absent_counts_nothing(pairs, by_pair, key);
        }
    } else {
        lemma_merged_counts(declared, pairs.skip(1), commit, key);
        if key == pairs[0].key {
            assert forall|j: int| 0 <= j < declared.len() implies by_declaration(
                #[trigger] declared[j],
            ) != key by {
                if j > 0 {
                    assert(!declaration_lt()(declared[j], declared[0]));
                }
            }
            lemma_absent_counts_nothing(declared, by_declaration, key);
        }
    }
}

proof fn lemma_declarations_are_faithful(intents: Seq<Intent>, declared: DeclarationContent)
    requires
        declarations_sound(intents),
        declarations(intents).contains(declared),
    ensures
        faithful(declared),
    decreases intents.len(),
{
    let list = declarations(intents);
    let earlier = declarations(intents.drop_last());
    let k = choose|k: int| 0 <= k < list.len() && list[k] == declared;
    assert(declaration_complaint(intents[intents.len() - 1]) is None);
    if k < earlier.len() {
        assert(earlier[k] == declared);
        assert forall|j: int| 0 <= j < intents.len() - 1 implies declaration_complaint(
            #[trigger] intents.drop_last()[j],
        ) is None by {
            assert(intents.drop_last()[j] == intents[j]);
        }
        lemma_declarations_are_faithful(intents.drop_last(), declared);
    }
}

/// Declarations and pairs are matched as multisets of keys: of each amount,
/// balance and recipient there are as many value legs as there are both
/// declarations and pairs of it, whatever else the batch holds.
pub proof fn law_value_legs_match_common_keys(
    intents: Seq<Intent>,
    pairs: Seq<PairContent>,
    commit: CommitRef,
    key: KeyContent,
)
    requires
        declarations_sound(intents),
    ensures
        times_matched(legs_between(intents, pairs, commit), key) == fewer(
            times_declared(declarations(intents), key),
            times_paired(pairs, key),
        ),
{
    let declared = in_order(declarations(intents), declaration_lt());
    let present = in_order(pairs, pair_lt());
    lemma_leg_orders();
    lemma_in_order(declarations(intents), declaration_lt());
    lemma_in_order(pairs, pair_lt());
    assert forall|i: int| 0 <= i < declared.len() implies faithful(#[trigger] declared[i]) by {
        assert(declared.contains(declared[i]));
        lemma_in_order_members(declarations(intents), declaration_lt(), declared[i]);
        lemma_declarations_are_faithful(intents, declared[i]);
    }
    lemma_merged_counts(declared, present, commit, key);
    lemma_in_order_mapped(
        declarations(intents),
        declaration_lt(),
        |d: DeclarationContent| d.key,
    );
    lemma_in_order_mapped(pairs, pair_lt(), |p: PairContent| p.key);
}

} // verus!
