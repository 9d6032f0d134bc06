//! JSON documents: operation inputs and state payloads.
//!
//! [`Value`] holds a document; its view is a [`Json`], in which an object is a
//! mathematical map. Numbers are carried and compared but never computed with.
use vstd::prelude::*;

use crate::text::same_text;

verus! {

/// A JSON number: an unsigned or negative integer, or the bits of a double.
#[derive(Debug, Clone, Copy, PartialEq, Eq, Structural)]
pub enum Number {
    /// A non-negative integer.
    PosInt(u64),
    /// A negative integer.
    NegInt(i64),
    /// The bit pattern of a finite double that is not an integer literal.
    FloatBits(u64),
}

/// A JSON document.
#[derive(Debug)]
pub enum Value {
    /// `null`.
    Null,
    /// A boolean.
    Bool(bool),
    /// A number.
    Number(Number),
    /// A string.
    String(String),
    /// An array.
    Array(Vec<Value>),
    /// An object.
    Object(Fields),
}

/// The named members of a JSON object.
///
/// A name is looked up from the front: a later entry of the same name is
/// shadowed by an earlier one. [`Fields::insert`] never adds a second entry
/// for a name.
#[derive(Debug)]
pub struct Fields {
    /// The members in insertion order.
    pub entries: Vec<(String, Value)>,
}

/// The mathematical content of a JSON document.
#[verifier::ext_equal]
pub enum Json {
    /// `null`.
    Null,
    /// A boolean.
    Bool(bool),
    /// A number.
    Number(Number),
    /// A string.
    Str(Seq<char>),
    /// An array.
    Array(Seq<Json>),
    /// An object.
    Object(Map<Seq<char>, Json>),
}

/// The content of a document.
pub open spec fn json_of(value: Value) -> Json
    decreases value,
{
    match value {
        Value::Null => Json::Null,
        Value::Bool(b) => Json::Bool(b),
        Value::Number(n) => Json::Number(n),
        Value::String(s) => Json::Str(s@),
        Value::Array(items) => Json::Array(items_of(items@)),
        Value::Object(fields) => Json::Object(members_of(fields.entries@)),
    }
}

/// The contents of a list of documents.
pub open spec fn items_of(items: Seq<Value>) -> Seq<Json>
    decreases items,
{
    if items.len() == 0 {
        Seq::empty()
    } else {
        items_of(items.drop_last()).push(json_of(items.last()))
    }
}

/// The content of a list of members, in which the first entry of a name wins.
pub open spec fn members_of(entries: Seq<(String, Value)>) -> Map<Seq<char>, Json>
    decreases entries,
{
    if entries.len() == 0 {
        Map::empty()
    } else {
        members_of(entries.drop_first()).insert(entries[0].0@, json_of(entries[0].1))
    }
}

impl View for Value {
    type V = Json;

    open spec fn view(&self) -> Json {
        json_of(*self)
    }
}

impl View for Fields {
    type V = Map<Seq<char>, Json>;

    open spec fn view(&self) -> Map<Seq<char>, Json> {
        members_of(self.entries@)
    }
}

/// The member of a document under a name; nothing when it is not an object.
pub open spec fn member(document: Json, name: Seq<char>) -> Option<Json> {
    match document {
        Json::Object(members) => lookup(members, name),
        _ => None,
    }
}

/// The value under a name.
pub open spec fn lookup(members: Map<Seq<char>, Json>, name: Seq<char>) -> Option<Json> {
    if members.contains_key(name) {
        Some(members[name])
    } else {
        None
    }
}

/// The text that an optional value holds, when it is a string.
pub open spec fn as_text(value: Option<Json>) -> Option<Seq<char>> {
    match value {
        Some(Json::Str(text)) => Some(text),
        _ => None,
    }
}

/// The boolean that an optional value holds, when it is one.
pub open spec fn as_flag(value: Option<Json>) -> Option<bool> {
    match value {
        Some(Json::Bool(flag)) => Some(flag),
        _ => None,
    }
}

/// How deeply arrays and objects nest in a document.
pub open spec fn depth(value: Value) -> nat
    decreases value,
{
    match value {
        Value::Array(items) => 1 + items_depth(items@),
        Value::Object(fields) => 1 + members_depth(fields.entries@),
        _ => 0,
    }
}

/// The greatest depth among documents; zero when there are none.
pub open spec fn items_depth(items: Seq<Value>) -> nat
    decreases items,
{
    if items.len() == 0 {
        0
    } else {
        greater(items_depth(items.drop_last()), depth(items.last()))
    }
}

/// The greatest depth among members; zero when there are none.
pub open spec fn members_depth(entries: Seq<(String, Value)>) -> nat
    decreases entries,
{
    if entries.len() == 0 {
        0
    } else {
        greater(members_depth(entries.drop_last()), depth(entries.last().1))
    }
}

/// The greater of two numbers.
pub open spec fn greater(a: nat, b: nat) -> nat {
    if a >= b {
        a
    } else {
        b
    }
}

/// The contents of a list of documents, by position.
proof fn lemma_items_of(items: Seq<Value>)
    ensures
        items_of(items).len() == items.len(),
        forall|i: int|
            0 <= i < items.len() ==> #[trigger] items_of(items)[i] == json_of(items[i]),
    decreases items.len(),
{
    if items.len() > 0 {
        lemma_items_of(items.drop_last());
        assert forall|i: int| 0 <= i < items.len() implies #[trigger] items_of(items)[i] == json_of(
            items[i],
        ) by {
            if i < items.len() - 1 {
                assert(items_of(items)[i] == items_of(items.drop_last())[i]);
                assert(items.drop_last()[i] == items[i]);
            }
        }
    }
}

/// Names that no entry carries are absent.
proof fn lemma_members_absent(entries: Seq<(String, Value)>, name: Seq<char>)
    requires
        forall|i: int| 0 <= i < entries.len() ==> (#[trigger] entries[i]).0@ != name,
    ensures
        !members_of(entries).contains_key(name),
    decreases entries.len(),
{
    if entries.len() > 0 {
        let rest = entries.drop_first();
        assert forall|i: int| 0 <= i < rest.len() implies (#[trigger] rest[i]).0@ != name by {
            assert(rest[i] == entries[i + 1]);
        }
        lemma_members_absent(rest, name);
    }
}

/// The first entry of a name gives the value under that name.
proof fn lemma_members_first(entries: Seq<(String, Value)>, at: int)
    requires
        0 <= at < entries.len(),
        forall|i: int| 0 <= i < at ==> (#[trigger] entries[i]).0@ != entries[at].0@,
    ensures
        members_of(entries).contains_key(entries[at].0@),
        members_of(entries)[entries[at].0@] == json_of(entries[at].1),
    decreases entries.len(),
{
    if at > 0 {
        let rest = entries.drop_first();
        assert(rest[at - 1] == entries[at]);
        assert forall|i: int| 0 <= i < at - 1 implies (#[trigger] rest[i]).0@ != rest[at - 1].0@ by {
            assert(rest[i] == entries[i + 1]);
        }
        lemma_members_first(rest, at - 1);
        assert(entries[0].0@ != entries[at].0@);
    }
}

/// Every name in the content comes from an entry.
proof fn lemma_members_present(entries: Seq<(String, Value)>, name: Seq<char>) -> (at: int)
    requires
        members_of(entries).contains_key(name),
    ensures
        0 <= at < entries.len(),
        entries[at].0@ == name,
        forall|i: int| 0 <= i < at ==> (#[trigger] entries[i]).0@ != name,
    decreases entries.len(),
{
    if entries[0].0@ == name {
        0
    } else {
        let rest = entries.drop_first();
        let at = lemma_members_present(rest, name);
        assert(entries[at + 1] == rest[at]);
        assert forall|i: int| 0 <= i < at + 1 implies (#[trigger] entries[i]).0@ != name by {
            if i > 0 {
                assert(entries[i] == rest[i - 1]);
            }
        }
        at + 1
    }
}

/// Replacing the value of the first entry of a name replaces it in the content.
proof fn lemma_members_update(entries: Seq<(String, Value)>, at: int, entry: (String, Value))
    requires
        0 <= at < entries.len(),
        entry.0@ == entries[at].0@,
        forall|i: int| 0 <= i < at ==> (#[trigger] entries[i]).0@ != entries[at].0@,
    ensures
        members_of(entries.update(at, entry)) == members_of(entries).insert(
            entry.0@,
            json_of(entry.1),
        ),
    decreases entries.len(),
{
    let rest = entries.drop_first();
    if at == 0 {
        assert(entries.update(0, entry).drop_first() =~= rest);
        assert(members_of(entries.update(at, entry)) =~= members_of(entries).insert(
            entry.0@,
            json_of(entry.1),
        ));
    } else {
        assert(rest[at - 1] == entries[at]);
        assert forall|i: int| 0 <= i < at - 1 implies (#[trigger] rest[i]).0@ != rest[at - 1].0@ by {
            assert(rest[i] == entries[i + 1]);
        }
        lemma_members_update(rest, at - 1, entry);
        assert(entries.update(at, entry).drop_first() =~= rest.update(at - 1, entry));
        assert(entries[0].0@ != entry.0@);
        assert(members_of(entries.update(at, entry)) =~= members_of(entries).insert(
            entry.0@,
            json_of(entry.1),
        ));
    }
}

/// Appending an entry of a new name adds it to the content.
proof fn lemma_members_push(entries: Seq<(String, Value)>, entry: (String, Value))
    requires
        forall|i: int| 0 <= i < entries.len() ==> (#[trigger] entries[i]).0@ != entry.0@,
    ensures
        members_of(entries.push(entry)) == members_of(entries).insert(entry.0@, json_of(entry.1)),
    decreases entries.len(),
{
    if entries.len() == 0 {
        assert(entries.push(entry).drop_first() =~= entries);
    } else {
        let rest = entries.drop_first();
        assert forall|i: int| 0 <= i < rest.len() implies (#[trigger] rest[i]).0@ != entry.0@ by {
            assert(rest[i] == entries[i + 1]);
        }
        lemma_members_push(rest, entry);
        assert(entries.push(entry).drop_first() =~= rest.push(entry));
        assert(entries[0].0@ != entry.0@);
        assert(members_of(entries.push(entry)) =~= members_of(entries).insert(
            entry.0@,
            json_of(entry.1),
        ));
    }
}

/// Lists with equal names and contents have equal content.
proof fn lemma_members_equal(a: Seq<(String, Value)>, b: Seq<(String, Value)>)
    requires
        a.len() == b.len(),
        forall|i: int|
            0 <= i < a.len() ==> (#[trigger] a[i]).0@ == b[i].0@ && json_of(a[i].1) == json_of(
                b[i].1,
            ),
    ensures
        members_of(a) == members_of(b),
    decreases a.len(),
{
    if a.len() > 0 {
        let x = a.drop_first();
        let y = b.drop_first();
        assert forall|i: int| 0 <= i < x.len() implies (#[trigger] x[i]).0@ == y[i].0@ && json_of(
            x[i].1,
        ) == json_of(y[i].1) by {
            assert(x[i] == a[i + 1]);
            assert(y[i] == b[i + 1]);
        }
        lemma_members_equal(x, y);
        assert(a[0].0@ == b[0].0@);
    }
}

impl Fields {
    /// No members.
    pub fn new() -> (r: Self)
        ensures
            r@ == Map::<Seq<char>, Json>::empty(),
    {
        Fields { entries: Vec::new() }
    }

    /// Whether there are no members.
    pub fn is_empty(&self) -> (r: bool)
        ensures
            r == (self@ == Map::<Seq<char>, Json>::empty()),
    {
        if self.entries.len() > 0 {
            proof {
                lemma_members_first(self.entries@, 0);
                assert(self@.contains_key(self.entries@[0].0@));
            }
        }
        self.entries.len() == 0
    }

    /// The value under a name.
    pub fn get(&self, name: &str) -> (r: Option<&Value>)
        ensures
            match r {
                Some(value) => lookup(self@, name@) == Some(value@),
                None => lookup(self@, name@) is None,
            },
    {
        let mut i: usize = 0;
        while i < self.entries.len()
            invariant
                i <= self.entries@.len(),
                forall|k: int| 0 <= k < i ==> (#[trigger] self.entries@[k]).0@ != name@,
            decreases self.entries@.len() - i,
        {
            if same_text(self.entries[i].0.as_str(), name) {
                proof {
                    lemma_members_first(self.entries@, i as int);
                }
                return Some(&self.entries[i].1);
            }
            i = i + 1;
        }
        proof {
            lemma_members_absent(self.entries@, name@);
        }
        None
    }

    /// Sets the value under a name.
    pub fn insert(&mut self, name: String, value: Value)
        ensures
            final(self)@ == old(self)@.insert(name@, value@),
    {
        let mut i: usize = 0;
        while i < self.entries.len()
            invariant
                i <= self.entries@.len(),
                self.entries@ == old(self).entries@,
                forall|k: int| 0 <= k < i ==> (#[trigger] self.entries@[k]).0@ != name@,
            decreases self.entries@.len() - i,
        {
            if same_text(self.entries[i].0.as_str(), name.as_str()) {
                proof {
                    lemma_members_update(self.entries@, i as int, (name, value));
                }
                self.entries.set(i, (name, value));
                return;
            }
            i = i + 1;
        }
        proof {
            lemma_members_push(self.entries@, (name, value));
        }
        self.entries.push((name, value));
    }

    /// The members with one more, for building objects.
    pub fn with(self, name: &str, value: Value) -> (r: Self)
        ensures
            r@ == self@.insert(name@, value@),
    {
        let mut fields = self;
        fields.insert(name.to_owned(), value);
        fields
    }
}

impl Clone for Value {
    /// A copy with the same content.
    fn clone(&self) -> (r: Self)
        ensures
            r@ == self@,
        decreases self,
    {
        match self {
            Value::Null => Value::Null,
            Value::Bool(b) => Value::Bool(*b),
            Value::Number(n) => Value::Number(*n),
            Value::String(s) => Value::String(s.clone()),
            Value::Array(items) => {
                let mut copies: Vec<Value> = Vec::new();
                let mut i: usize = 0;
                while i < items.len()
                    invariant
                        *self == Value::Array(*items),
                        i <= items@.len(),
                        copies@.len() == i,
                        forall|k: int|
                            0 <= k < i ==> json_of(#[trigger] copies@[k]) == json_of(items@[k]),
                    decreases items@.len() - i,
                {
                    assert(decreases_to!(*self => self->Array_0@[i as int]));
                    copies.push((&items[i]).clone());
                    i = i + 1;
                }
                proof {
                    lemma_items_of(items@);
                    lemma_items_of(copies@);
                    assert(items_of(items@) =~= items_of(copies@));
                }
                Value::Array(copies)
            },
            Value::Object(fields) => Value::Object(fields.clone()),
        }
    }
}

impl Clone for Fields {
    /// A copy with the same content.
    fn clone(&self) -> (r: Self)
        ensures
            r@ == self@,
        decreases self,
    {
        let mut copies: Vec<(String, Value)> = Vec::new();
        let mut i: usize = 0;
        while i < self.entries.len()
            invariant
                i <= self.entries@.len(),
                copies@.len() == i,
                forall|k: int|
                    0 <= k < i ==> (#[trigger] copies@[k]).0@ == self.entries@[k].0@ && json_of(
                        copies@[k].1,
                    ) == json_of(self.entries@[k].1),
            decreases self.entries@.len() - i,
        {
            let name = self.entries[i].0.clone();
            assert(decreases_to!(*self => self.entries@[i as int].1));
            let value = (&self.entries[i].1).clone();
            copies.push((name, value));
            i = i + 1;
        }
        proof {
            lemma_members_equal(copies@, self.entries@);
        }
        Fields { entries: copies }
    }
}

impl Value {
    /// An object.
    pub fn object(fields: Fields) -> (r: Self)
        ensures
            r@ == Json::Object(fields@),
    {
        Value::Object(fields)
    }

    /// A string.
    pub fn text(text: &str) -> (r: Self)
        ensures
            r@ == Json::Str(text@),
    {
        Value::String(text.to_owned())
    }

    /// The member under a name, when this is an object that has one.
    pub fn get(&self, name: &str) -> (r: Option<&Value>)
        ensures
            match r {
                Some(value) => member(self@, name@) == Some(value@),
                None => member(self@, name@) is None,
            },
    {
        match self {
            Value::Object(fields) => fields.get(name),
            _ => None,
        }
    }

    /// The text, when this is a string.
    pub fn as_str(&self) -> (r: Option<&str>)
        ensures
            match r {
                Some(text) => self@ == Json::Str(text@),
                None => !(self@ is Str),
            },
    {
        match self {
            Value::String(text) => Some(text.as_str()),
            _ => None,
        }
    }

    /// The boolean, when this is one.
    pub fn as_bool(&self) -> (r: Option<bool>)
        ensures
            match r {
                Some(flag) => self@ == Json::Bool(flag),
                None => !(self@ is Bool),
            },
    {
        match self {
            Value::Bool(flag) => Some(*flag),
            _ => None,
        }
    }

    /// The text of the member under a name, when it is a string.
    pub fn text_member(&self, name: &str) -> (r: Option<&str>)
        ensures
            match r {
                Some(text) => as_text(member(self@, name@)) == Some(text@),
                None => as_text(member(self@, name@)) is None,
            },
    {
        match self.get(name) {
            Some(value) => value.as_str(),
            None => None,
        }
    }

    /// Whether two documents have the same content.
    pub fn same(&self, other: &Value) -> (r: bool)
        ensures
            r == (self@ == other@),
        decreases self,
    {
        match (self, other) {
            (Value::Null, Value::Null) => true,
            (Value::Bool(a), Value::Bool(b)) => *a == *b,
            (Value::Number(a), Value::Number(b)) => *a == *b,
            (Value::String(a), Value::String(b)) => *a == *b,
            (Value::Array(a), Value::Array(b)) => {
                proof {
                    lemma_items_of(a@);
                    lemma_items_of(b@);
                }
                if a.len() != b.len() {
                    return false;
                }
                let mut i: usize = 0;
                while i < a.len()
                    invariant
                        *self == Value::Array(*a),
                        *other == Value::Array(*b),
                        a@.len() == b@.len(),
                        i <= a@.len(),
                        items_of(a@).len() == a@.len(),
                        items_of(b@).len() == b@.len(),
                        forall|k: int|
                            0 <= k < a@.len() ==> #[trigger] items_of(a@)[k] == json_of(a@[k]),
                        forall|k: int|
                            0 <= k < b@.len() ==> #[trigger] items_of(b@)[k] == json_of(b@[k]),
                        forall|k: int| 0 <= k < i ==> items_of(a@)[k] == items_of(b@)[k],
                    decreases a@.len() - i,
                {
                    assert(decreases_to!(*self => self->Array_0@[i as int]));
                    if !(&a[i]).same(&b[i]) {
                        assert(items_of(a@)[i as int] != items_of(b@)[i as int]);
                        assert(items_of(a@) != items_of(b@));
                        return false;
                    }
                    assert(items_of(a@)[i as int] == items_of(b@)[i as int]);
                    i = i + 1;
                }
                assert(items_of(a@) =~= items_of(b@));
                true
            },
            (Value::Object(a), Value::Object(b)) => a.same(b),
            _ => false,
        }
    }

    /// How deeply arrays and objects nest, up to the largest `usize`.
    pub fn depth(&self) -> (r: usize)
        ensures
            r == if depth(*self) <= usize::MAX { depth(*self) } else { usize::MAX as nat },
        decreases self,
    {
        match self {
            Value::Array(items) => {
                let mut deepest: usize = 0;
                let mut i: usize = 0;
                assert(items@.take(0) =~= Seq::empty());
                while i < items.len()
                    invariant
                        *self == Value::Array(*items),
                        i <= items@.len(),
                        deepest == if items_depth(items@.take(i as int)) <= usize::MAX {
                            items_depth(items@.take(i as int))
                        } else {
                            usize::MAX as nat
                        },
                    decreases items@.len() - i,
                {
                    assert(decreases_to!(*self => self->Array_0@[i as int]));
                    let d: usize = (&items[i]).depth();
                    assert(items@.take(i + 1).drop_last() =~= items@.take(i as int));
                    if d > deepest {
                        deepest = d;
                    }
                    i = i + 1;
                }
                assert(items@.take(i as int) =~= items@);
                deepest.saturating_add(1)
            },
            Value::Object(fields) => fields.depth().saturating_add(1),
            _ => 0,
        }
    }
}

impl Fields {
    /// Whether two objects have the same content.
    pub fn same(&self, other: &Fields) -> (r: bool)
        ensures
            r == (self@ == other@),
        decreases self,
    {
        let mut i: usize = 0;
        while i < self.entries.len()
            invariant
                i <= self.entries@.len(),
                forall|k: int|
                    0 <= k < i ==> lookup(other@, (#[trigger] self.entries@[k]).0@) == lookup(
                        self@,
                        self.entries@[k].0@,
                    ),
            decreases self.entries@.len() - i,
        {
            let name = self.entries[i].0.as_str();
            let mut first: usize = 0;
            while !same_text(self.entries[first].0.as_str(), name)
                invariant
                    first <= i < self.entries@.len(),
                    name@ == self.entries@[i as int].0@,
                    forall|k: int| 0 <= k < first ==> (#[trigger] self.entries@[k]).0@ != name@,
                decreases i - first,
            {
                first = first + 1;
            }
            proof {
                lemma_members_first(self.entries@, first as int);
                assert(lookup(self@, name@) == Some(json_of(self.entries@[first as int].1)));
            }
            assert(decreases_to!(*self => self.entries@[first as int].1));
            let mine = &self.entries[first].1;
            match other.get(name) {
                Some(value) => {
                    if !mine.same(value) {
                        return false;
                    }
                },
                None => {
                    return false;
                },
            }
            i = i + 1;
        }
        let mut j: usize = 0;
        while j < other.entries.len()
            invariant
                j <= other.entries@.len(),
                forall|k: int|
                    0 <= k < j ==> self@.contains_key((#[trigger] other.entries@[k]).0@),
            decreases other.entries@.len() - j,
        {
            if self.get(other.entries[j].0.as_str()).is_none() {
                proof {
                    lemma_entry_present(other.entries@, j as int);
                }
                return false;
            }
            j = j + 1;
        }
        proof {
            assert forall|name: Seq<char>| #[trigger] self@.dom().contains(
                name,
            ) implies other@.dom().contains(name) && other@[name] == self@[name] by {
                let at = lemma_members_present(self.entries@, name);
                assert(self.entries@[at].0@ == name);
                assert(lookup(other@, name) == lookup(self@, name));
            }
            assert forall|name: Seq<char>| #[trigger] other@.dom().contains(
                name,
            ) implies self@.dom().contains(name) by {
                let at = lemma_members_present(other.entries@, name);
                assert(other.entries@[at].0@ == name);
            }
            assert(self@.dom() =~= other@.dom());
            assert(self@ =~= other@);
        }
        true
    }

    /// The greatest depth among the members, up to the largest `usize`.
    pub fn depth(&self) -> (r: usize)
        ensures
            r == if members_depth(self.entries@) <= usize::MAX {
                members_depth(self.entries@)
            } else {
                usize::MAX as nat
            },
        decreases self,
    {
        let mut deepest: usize = 0;
        let mut i: usize = 0;
        assert(self.entries@.take(0) =~= Seq::empty());
        while i < self.entries.len()
            invariant
                i <= self.entries@.len(),
                deepest == if members_depth(self.entries@.take(i as int)) <= usize::MAX {
                    members_depth(self.entries@.take(i as int))
                } else {
                    usize::MAX as nat
                },
            decreases self.entries@.len() - i,
        {
            assert(decreases_to!(*self => self.entries@[i as int].1));
            let d: usize = (&self.entries[i].1).depth();
            assert(self.entries@.take(i + 1).drop_last() =~= self.entries@.take(i as int));
            if d > deepest {
                deepest = d;
            }
            i = i + 1;
        }
        assert(self.entries@.take(i as int) =~= self.entries@);
        deepest
    }
}

/// A name that an entry carries is present.
proof fn lemma_entry_present(entries: Seq<(String, Value)>, at: int)
    requires
        0 <= at < entries.len(),
    ensures
        members_of(entries).contains_key(entries[at].0@),
    decreases entries.len(),
{
    if at > 0 {
        let rest = entries.drop_first();
        assert(rest[at - 1] == entries[at]);
        lemma_entry_present(rest, at - 1);
    }
}

impl PartialEq for Value {
    fn eq(&self, other: &Self) -> (r: bool) {
        self.same(other)
    }
}

impl vstd::std_specs::cmp::PartialEqSpecImpl for Value {
    open spec fn obeys_eq_spec() -> bool {
        true
    }

    open spec fn eq_spec(&self, other: &Self) -> bool {
        self@ == other@
    }
}

impl Eq for Value {

}

impl PartialEq for Fields {
    fn eq(&self, other: &Self) -> (r: bool) {
        self.same(other)
    }
}

impl vstd::std_specs::cmp::PartialEqSpecImpl for Fields {
    open spec fn obeys_eq_spec() -> bool {
        true
    }

    open spec fn eq_spec(&self, other: &Self) -> bool {
        self@ == other@
    }
}

impl Eq for Fields {

}

} // verus!
