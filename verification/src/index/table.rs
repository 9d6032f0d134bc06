//! Tables: values under text keys, in key order.
use vstd::prelude::*;

use crate::text::{
    increasing, lemma_text_lt_irreflexive, lemma_text_lt_total, lemma_text_lt_transitive,
    same_text, text_less, text_lt, texts,
};

verus! {

/// Values under distinct keys, in the text order of the keys.
#[derive(Debug, PartialEq, Eq)]
pub struct Table<V> {
    entries: Vec<(String, V)>,
}

/// The keys of entries, in order.
pub closed spec fn keys_of<V>(entries: Seq<(String, V)>) -> Seq<Seq<char>> {
    entries.map_values(|entry: (String, V)| entry.0@)
}

/// Whether the entry at a position carries a key.
pub closed spec fn carries<V>(entries: Seq<(String, V)>, at: int, key: Seq<char>) -> bool {
    0 <= at < entries.len() && entries[at].0@ == key
}

/// The content of entries.
pub closed spec fn content<V>(entries: Seq<(String, V)>) -> Map<Seq<char>, V> {
    Map::new(
        |key: Seq<char>| exists|i: int| carries(entries, i, key),
        |key: Seq<char>| entries[choose|i: int| carries(entries, i, key)].1,
    )
}

impl<V> View for Table<V> {
    type V = Map<Seq<char>, V>;

    closed spec fn view(&self) -> Map<Seq<char>, V> {
        content(self.entries@)
    }
}

proof fn lemma_content_at<V>(entries: Seq<(String, V)>, at: int)
    requires
        increasing(keys_of(entries)),
        0 <= at < entries.len(),
    ensures
        content(entries).contains_key(entries[at].0@),
        content(entries)[entries[at].0@] == entries[at].1,
{
    let key = entries[at].0@;
    assert(carries(entries, at, key));
    let i = choose|i: int| carries(entries, i, key);
    lemma_text_lt_irreflexive(key);
    assert(keys_of(entries)[i] == key && keys_of(entries)[at] == key);
    assert(i == at);
}

proof fn lemma_absent<V>(entries: Seq<(String, V)>, at: int, key: Seq<char>)
    requires
        increasing(keys_of(entries)),
        0 <= at <= entries.len(),
        forall|k: int| 0 <= k < at ==> text_lt(#[trigger] keys_of(entries)[k], key),
        at < entries.len() ==> text_lt(key, keys_of(entries)[at]),
    ensures
        !content(entries).contains_key(key),
{
    if content(entries).contains_key(key) {
        let i = choose|i: int| carries(entries, i, key);
        assert(keys_of(entries)[i] == key);
        lemma_text_lt_irreflexive(key);
        if i > at {
            assert(text_lt(keys_of(entries)[at], keys_of(entries)[i]));
            lemma_text_lt_transitive(key, keys_of(entries)[at], key);
        }
    }
}

impl<V> Table<V> {
    #[verifier::type_invariant]
    spec fn ordered(self) -> bool {
        increasing(keys_of(self.entries@))
    }

    /// An empty table.
    pub fn new() -> (r: Self)
        ensures
            r@ == Map::<Seq<char>, V>::empty(),
    {
        let entries: Vec<(String, V)> = Vec::new();
        assert(content(entries@) =~= Map::<Seq<char>, V>::empty());
        Table { entries }
    }

    /// The position of a key, or where it belongs.
    fn find(entries: &Vec<(String, V)>, key: &str) -> (r: (usize, bool))
        requires
            increasing(keys_of(entries@)),
        ensures
            0 <= r.0 <= entries@.len(),
            forall|k: int| 0 <= k < r.0 ==> text_lt(#[trigger] keys_of(entries@)[k], key@),
            r.1 ==> r.0 < entries@.len() && entries@[r.0 as int].0@ == key@ && content(
                entries@,
            ).contains_key(key@) && content(entries@)[key@] == entries@[r.0 as int].1,
            !r.1 ==> !content(entries@).contains_key(key@) && (r.0 < entries@.len() ==> text_lt(
                key@,
                keys_of(entries@)[r.0 as int],
            )),
    {
        let mut i: usize = 0;
        while i < entries.len() && text_less(entries[i].0.as_str(), key)
            invariant
                i <= entries@.len(),
                forall|k: int| 0 <= k < i ==> text_lt(#[trigger] keys_of(entries@)[k], key@),
            decreases entries@.len() - i,
        {
            assert(keys_of(entries@)[i as int] == entries@[i as int].0@);
            i = i + 1;
        }
        if i < entries.len() && same_text(entries[i].0.as_str(), key) {
            proof {
                lemma_content_at(entries@, i as int);
            }
            return (i, true);
        }
        proof {
            if i < entries@.len() {
                assert(keys_of(entries@)[i as int] == entries@[i as int].0@);
                lemma_text_lt_total(keys_of(entries@)[i as int], key@);
            }
            lemma_absent(entries@, i as int, key@);
        }
        (i, false)
    }

    /// The value under a key.
    pub fn get(&self, key: &str) -> (r: Option<&V>)
        ensures
            match r {
                Some(value) => self@.contains_key(key@) && self@[key@] == *value,
                None => !self@.contains_key(key@),
            },
    {
        proof {
            use_type_invariant(self);
        }
        let (at, found) = Self::find(&self.entries, key);
        if found {
            Some(&self.entries[at].1)
        } else {
            None
        }
    }

    /// Puts a value under a key, in place of the one before.
    pub fn insert(&mut self, key: String, value: V)
        ensures
            final(self)@ == old(self)@.insert(key@, value),
    {
        proof {
            use_type_invariant(&*self);
        }
        let mut entries: Vec<(String, V)> = Vec::new();
        std::mem::swap(&mut entries, &mut self.entries);
        let ghost before = entries@;
        let (at, found) = Self::find(&entries, key.as_str());
        if found {
            entries.set(at, (key, value));
            proof {
                let after = entries@;
                assert(keys_of(after) =~= keys_of(before));
                lemma_content_at(after, at as int);
                assert forall|k: Seq<char>| #[trigger]
                    content(after).contains_key(k) == content(before).insert(
                        key@,
                        value,
                    ).contains_key(k) by {
                    if content(after).contains_key(k) {
                        let i = choose|i: int| carries(after, i, k);
                        assert(keys_of(after)[i] == keys_of(before)[i]);
                        assert(carries(before, i, k));
                    }
                    if content(before).contains_key(k) {
                        let i = choose|i: int| carries(before, i, k);
                        assert(keys_of(after)[i] == keys_of(before)[i]);
                        assert(carries(after, i, k));
                    }
                }
                assert forall|k: Seq<char>| #[trigger]
                    content(after).contains_key(k) implies content(after)[k] == content(
                    before,
                ).insert(key@, value)[k] by {
                    let i = choose|i: int| carries(after, i, k);
                    lemma_content_at(after, i);
                    if i != at {
                        lemma_content_at(before, i);
                    }
                }
                assert(content(after) =~= content(before).insert(key@, value));
            }
        } else {
            entries.insert(at, (key, value));
            proof {
                lemma_insert(before, at as int, key, value);
                assert(entries@ =~= before.insert(at as int, (key, value)));
            }
        }
        self.entries = entries;
    }

    /// Takes the value under a key out of the table.
    pub fn remove(&mut self, key: &str) -> (r: Option<V>)
        ensures
            match r {
                Some(value) => old(self)@.contains_key(key@) && old(self)@[key@] == value,
                None => !old(self)@.contains_key(key@),
            },
            final(self)@ == old(self)@.remove(key@),
    {
        proof {
            use_type_invariant(&*self);
        }
        let mut entries: Vec<(String, V)> = Vec::new();
        std::mem::swap(&mut entries, &mut self.entries);
        let ghost before = entries@;
        let (at, found) = Self::find(&entries, key);
        if !found {
            self.entries = entries;
            assert(content(before).remove(key@) =~= content(before));
            return None;
        }
        let (_, value) = entries.remove(at);
        proof {
            lemma_remove(before, at as int);
            assert(entries@ =~= before.remove(at as int));
        }
        self.entries = entries;
        Some(value)
    }

    /// The keys, in order.
    pub fn keys(&self) -> (r: Vec<String>)
        ensures
            increasing(texts(r@)),
            forall|key: Seq<char>| #[trigger] texts(r@).contains(key) <==> self@.contains_key(key),
    {
        proof {
            use_type_invariant(self);
        }
        let mut names: Vec<String> = Vec::new();
        let mut i: usize = 0;
        while i < self.entries.len()
            invariant
                i <= self.entries@.len(),
                texts(names@) == keys_of(self.entries@).take(i as int),
            decreases self.entries@.len() - i,
        {
            let ghost before = texts(names@);
            names.push(self.entries[i].0.clone());
            assert(texts(names@) =~= before.push(self.entries@[i as int].0@));
            assert(keys_of(self.entries@).take(i + 1) =~= keys_of(self.entries@).take(
                i as int,
            ).push(keys_of(self.entries@)[i as int]));
            i = i + 1;
        }
        proof {
            let keys = keys_of(self.entries@);
            assert(texts(names@) =~= keys);
            assert forall|key: Seq<char>| #[trigger]
                texts(names@).contains(key) <==> self@.contains_key(key) by {
                if texts(names@).contains(key) {
                    let k = choose|k: int| 0 <= k < keys.len() && keys[k] == key;
                    assert(carries(self.entries@, k, key));
                }
                if self@.contains_key(key) {
                    let k = choose|k: int| carries(self.entries@, k, key);
                    assert(keys[k] == key);
                }
            }
        }
        names
    }
}

impl<V: Clone> Clone for Table<V> {
    fn clone(&self) -> (r: Self)
        ensures
            r@.dom() == self@.dom(),
            forall|key: Seq<char>| #[trigger]
                self@.contains_key(key) ==> cloned(self@[key], r@[key]),
    {
        proof {
            use_type_invariant(self);
        }
        let mut entries: Vec<(String, V)> = Vec::new();
        let mut i: usize = 0;
        while i < self.entries.len()
            invariant
                i <= self.entries@.len(),
                entries@.len() == i,
                forall|k: int|
                    0 <= k < i ==> (#[trigger] entries@[k]).0@ == self.entries@[k].0@ && cloned(
                        self.entries@[k].1,
                        entries@[k].1,
                    ),
            decreases self.entries@.len() - i,
        {
            entries.push((self.entries[i].0.clone(), self.entries[i].1.clone()));
            i = i + 1;
        }
        proof {
            assert(keys_of(entries@) =~= keys_of(self.entries@));
            assert forall|key: Seq<char>| #[trigger]
                content(entries@).contains_key(key) == self@.contains_key(key) by {
                if content(entries@).contains_key(key) {
                    let k = choose|k: int| carries(entries@, k, key);
                    assert(carries(self.entries@, k, key));
                }
                if self@.contains_key(key) {
                    let k = choose|k: int| carries(self.entries@, k, key);
                    assert(entries@[k].0@ == key);
                    assert(carries(entries@, k, key));
                }
            }
            assert(content(entries@).dom() =~= self@.dom());
            assert forall|key: Seq<char>| #[trigger]
                self@.contains_key(key) implies cloned(self@[key], content(entries@)[key]) by {
                let k = choose|k: int| carries(self.entries@, k, key);
                lemma_content_at(self.entries@, k);
                lemma_content_at(entries@, k);
            }
        }
        Table { entries }
    }
}

proof fn lemma_insert<V>(entries: Seq<(String, V)>, at: int, key: String, value: V)
    requires
        increasing(keys_of(entries)),
        0 <= at <= entries.len(),
        !content(entries).contains_key(key@),
        forall|k: int| 0 <= k < at ==> text_lt(#[trigger] keys_of(entries)[k], key@),
        at < entries.len() ==> text_lt(key@, keys_of(entries)[at]),
    ensures
        increasing(keys_of(entries.insert(at, (key, value)))),
        content(entries.insert(at, (key, value))) == content(entries).insert(key@, value),
{
    let after = entries.insert(at, (key, value));
    let (kb, ka) = (keys_of(entries), keys_of(after));
    assert(ka =~= kb.insert(at, key@));
    assert forall|a: int, b: int| 0 <= a < b < ka.len() implies text_lt(
        #[trigger] ka[a],
        #[trigger] ka[b],
    ) by {
        if a < at && b == at {
            assert(ka[a] == kb[a]);
        } else if a == at {
            assert(ka[b] == kb[b - 1]);
            if b - 1 > at {
                lemma_text_lt_transitive(key@, kb[at], kb[b - 1]);
            }
        } else if a < at && b > at {
            assert(ka[a] == kb[a] && ka[b] == kb[b - 1]);
        } else if a > at {
            assert(ka[a] == kb[a - 1] && ka[b] == kb[b - 1]);
        } else {
            assert(ka[a] == kb[a] && ka[b] == kb[b]);
        }
    }
    let target = content(entries).insert(key@, value);
    lemma_content_at(after, at);
    assert forall|k: Seq<char>| #[trigger]
        content(after).contains_key(k) == target.contains_key(k) by {
        if content(after).contains_key(k) {
            let i = choose|i: int| carries(after, i, k);
            if i < at {
                assert(carries(entries, i, k));
            } else if i > at {
                assert(carries(entries, i - 1, k));
            }
        }
        if content(entries).contains_key(k) {
            let i = choose|i: int| carries(entries, i, k);
            if i < at {
                assert(carries(after, i, k));
            } else {
                assert(carries(after, i + 1, k));
            }
        }
    }
    assert forall|k: Seq<char>| #[trigger]
        content(after).contains_key(k) implies content(after)[k] == target[k] by {
        let i = choose|i: int| carries(after, i, k);
        lemma_content_at(after, i);
        if i < at {
            lemma_content_at(entries, i);
        } else if i > at {
            lemma_content_at(entries, i - 1);
        }
    }
    assert(content(after) =~= target);
}

proof fn lemma_remove<V>(entries: Seq<(String, V)>, at: int)
    requires
        increasing(keys_of(entries)),
        0 <= at < entries.len(),
    ensures
        increasing(keys_of(entries.remove(at))),
        content(entries.remove(at)) == content(entries).remove(entries[at].0@),
{
    let after = entries.remove(at);
    let key = entries[at].0@;
    let (kb, ka) = (keys_of(entries), keys_of(after));
    assert(ka =~= kb.remove(at));
    assert forall|a: int, b: int| 0 <= a < b < ka.len() implies text_lt(
        #[trigger] ka[a],
        #[trigger] ka[b],
    ) by {
        let (p, q) = (if a < at { a } else { a + 1 }, if b < at { b } else { b + 1 });
        assert(ka[a] == kb[p] && ka[b] == kb[q]);
    }
    let target = content(entries).remove(key);
    assert forall|k: Seq<char>| #[trigger]
        content(after).contains_key(k) == target.contains_key(k) by {
        if content(after).contains_key(k) {
            let i = choose|i: int| carries(after, i, k);
            let p = if i < at { i } else { i + 1 };
            assert(carries(entries, p, k));
            assert(kb[p] == k && kb[at] == key);
            lemma_text_lt_irreflexive(key);
        }
        if target.contains_key(k) {
            let i = choose|i: int| carries(entries, i, k);
            assert(i != at);
            assert(carries(after, if i < at { i } else { i - 1 }, k));
        }
    }
    assert forall|k: Seq<char>| #[trigger]
        content(after).contains_key(k) implies content(after)[k] == target[k] by {
        let i = choose|i: int| carries(after, i, k);
        lemma_content_at(after, i);
        lemma_content_at(entries, if i < at { i } else { i + 1 });
    }
    assert(content(after) =~= target);
}

} // verus!
