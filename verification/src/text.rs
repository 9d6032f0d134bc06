//! Text helpers: equality, ordering, concatenation and sorted distinct lists.
use vstd::prelude::*;

verus! {

/// Lexicographic order on texts, character by character.
///
/// A proper prefix comes before the longer text; otherwise the first
/// differing character decides.
pub open spec fn text_lt(a: Seq<char>, b: Seq<char>) -> bool
    decreases a.len(),
{
    if b.len() == 0 {
        false
    } else if a.len() == 0 {
        true
    } else if a[0] != b[0] {
        (a[0] as int) < (b[0] as int)
    } else {
        text_lt(a.drop_first(), b.drop_first())
    }
}

/// No text comes before itself.
pub proof fn lemma_text_lt_irreflexive(a: Seq<char>)
    ensures
        !text_lt(a, a),
    decreases a.len(),
{
    if a.len() > 0 {
        lemma_text_lt_irreflexive(a.drop_first());
    }
}

/// The order on texts is transitive.
pub proof fn lemma_text_lt_transitive(a: Seq<char>, b: Seq<char>, c: Seq<char>)
    requires
        text_lt(a, b),
        text_lt(b, c),
    ensures
        text_lt(a, c),
    decreases a.len(),
{
    if a.len() > 0 && a[0] == b[0] && b[0] == c[0] {
        lemma_text_lt_transitive(a.drop_first(), b.drop_first(), c.drop_first());
    }
}

/// Of two different texts one comes before the other.
pub proof fn lemma_text_lt_total(a: Seq<char>, b: Seq<char>)
    ensures
        text_lt(a, b) || a == b || text_lt(b, a),
    decreases a.len(),
{
    if a.len() > 0 && b.len() > 0 && a[0] == b[0] {
        lemma_text_lt_total(a.drop_first(), b.drop_first());
        assert(a =~= seq![a[0]] + a.drop_first());
        assert(b =~= seq![b[0]] + b.drop_first());
    } else if a.len() == 0 && b.len() == 0 {
        assert(a =~= b);
    }
}

/// At most one of two texts comes before the other.
pub proof fn lemma_text_lt_asymmetric(a: Seq<char>, b: Seq<char>)
    requires
        text_lt(a, b),
    ensures
        !text_lt(b, a),
        a != b,
{
    lemma_text_lt_irreflexive(a);
    if text_lt(b, a) {
        lemma_text_lt_transitive(a, b, a);
    }
}

/// Skipping a common prefix does not change the order of two texts.
proof fn lemma_text_lt_skip(a: Seq<char>, b: Seq<char>, n: int)
    requires
        0 <= n <= a.len(),
        n <= b.len(),
        forall|i: int| 0 <= i < n ==> a[i] == b[i],
    ensures
        text_lt(a, b) == text_lt(a.skip(n), b.skip(n)),
    decreases n,
{
    if n == 0 {
        assert(a.skip(0) =~= a);
        assert(b.skip(0) =~= b);
    } else {
        lemma_text_lt_skip(a.drop_first(), b.drop_first(), n - 1);
        assert(a.drop_first().skip(n - 1) =~= a.skip(n));
        assert(b.drop_first().skip(n - 1) =~= b.skip(n));
    }
}

/// Whether two texts hold the same characters.
pub fn same_text(a: &str, b: &str) -> (r: bool)
    ensures
        r == (a@ == b@),
{
    a.to_owned() == b.to_owned()
}

/// The characters of a text, in order.
pub fn chars_of(text: &str) -> (r: Vec<char>)
    ensures
        r@ == text@,
{
    let mut chars: Vec<char> = Vec::new();
    for c in it: text.chars()
        invariant
            it.seq() == text@,
            chars@ == it.seq().take(it.index() as int),
    {
        chars.push(c);
        assert(it.seq().take(it.index() + 1) =~= it.seq().take(it.index() as int).push(c));
    }
    assert(text@.take(text@.len() as int) =~= text@);
    chars
}

/// Whether the first text comes before the second.
pub fn text_less(a: &str, b: &str) -> (r: bool)
    ensures
        r == text_lt(a@, b@),
{
    let left = chars_of(a);
    let right = chars_of(b);
    let mut i: usize = 0;
    while i < left.len() && i < right.len()
        invariant
            left@ == a@,
            right@ == b@,
            i <= left@.len(),
            i <= right@.len(),
            forall|k: int| 0 <= k < i ==> a@[k] == b@[k],
        decreases left@.len() - i,
    {
        let c: char = left[i];
        let d: char = right[i];
        if c != d {
            proof {
                lemma_text_lt_skip(a@, b@, i as int);
            }
            return c < d;
        }
        i = i + 1;
    }
    proof {
        lemma_text_lt_skip(a@, b@, i as int);
    }
    i < right.len()
}

/// Whether a character is a control character.
pub open spec fn control_char(c: char) -> bool {
    c <= '\u{1f}' || ('\u{7f}' <= c && c <= '\u{9f}')
}

/// Whether a text holds a control character.
pub fn has_control_char(text: &str) -> (r: bool)
    ensures
        r == exists|i: int| 0 <= i < text@.len() && control_char(#[trigger] text@[i]),
{
    let chars = chars_of(text);
    let mut i: usize = 0;
    while i < chars.len()
        invariant
            chars@ == text@,
            i <= chars@.len(),
            forall|k: int| 0 <= k < i ==> !control_char(#[trigger] text@[k]),
        decreases chars@.len() - i,
    {
        let c: char = chars[i];
        if c <= '\u{1f}' || ('\u{7f}' <= c && c <= '\u{9f}') {
            assert(control_char(text@[i as int]));
            return true;
        }
        i = i + 1;
    }
    false
}

/// `String::push`: appends the given character to the end of the string.
pub assume_specification[ std::string::String::push ](s: &mut std::string::String, ch: char)
    ensures
        final(s)@ == old(s)@.push(ch),
;

/// Joins two texts.
pub fn join2(a: &str, b: &str) -> (r: String)
    ensures
        r@ == a@ + b@,
{
    let mut text = a.to_owned();
    text.append(b);
    text
}

/// Joins three texts.
pub fn join3(a: &str, b: &str, c: &str) -> (r: String)
    ensures
        r@ == a@ + b@ + c@,
{
    let mut text = a.to_owned();
    text.append(b);
    text.append(c);
    text
}

/// Joins four texts.
pub fn join4(a: &str, b: &str, c: &str, d: &str) -> (r: String)
    ensures
        r@ == a@ + b@ + c@ + d@,
{
    let mut text = join3(a, b, c);
    text.append(d);
    text
}

/// Joins five texts.
pub fn join5(a: &str, b: &str, c: &str, d: &str, e: &str) -> (r: String)
    ensures
        r@ == a@ + b@ + c@ + d@ + e@,
{
    let mut text = a.to_owned();
    text.append(b);
    text.append(c);
    text.append(d);
    text.append(e);
    text
}

/// Joins six texts.
pub fn join6(a: &str, b: &str, c: &str, d: &str, e: &str, f: &str) -> (r: String)
    ensures
        r@ == a@ + b@ + c@ + d@ + e@ + f@,
{
    let mut text = join5(a, b, c, d, e);
    text.append(f);
    text
}

/// Joins seven texts.
pub fn join7(a: &str, b: &str, c: &str, d: &str, e: &str, f: &str, g: &str) -> (r: String)
    ensures
        r@ == a@ + b@ + c@ + d@ + e@ + f@ + g@,
{
    let mut text = join5(a, b, c, d, e);
    text.append(f);
    text.append(g);
    text
}

/// The contents of a list of texts.
pub open spec fn texts(list: Seq<String>) -> Seq<Seq<char>> {
    list.map_values(|text: String| text@)
}

/// Whether a list of texts is in strictly increasing order.
pub open spec fn increasing(list: Seq<Seq<char>>) -> bool {
    forall|i: int, j: int| 0 <= i < j < list.len() ==> text_lt(#[trigger] list[i], #[trigger] list[j])
}

/// Adds a text to a strictly increasing list, unless it is there already.
pub fn insert_sorted(list: &mut Vec<String>, text: &str)
    requires
        increasing(texts(old(list)@)),
    ensures
        increasing(texts(final(list)@)),
        forall|x: Seq<char>|
            #[trigger] texts(final(list)@).contains(x) <==> texts(old(list)@).contains(x) || x
                == text@,
{
    let ghost before = texts(list@);
    let mut i: usize = 0;
    while i < list.len() && text_less(list[i].as_str(), text)
        invariant
            i <= list@.len(),
            list@ == old(list)@,
            before == texts(list@),
            forall|k: int| 0 <= k < i ==> text_lt(#[trigger] before[k], text@),
        decreases list@.len() - i,
    {
        assert(before[i as int] == list@[i as int]@);
        i = i + 1;
    }
    if i < list.len() && same_text(list[i].as_str(), text) {
        assert(before[i as int] == text@);
        assert(before.contains(text@));
        return;
    }
    proof {
        if i < list@.len() {
            assert(before[i as int] == list@[i as int]@);
            lemma_text_lt_total(before[i as int], text@);
        }
    }
    let owned = text.to_owned();
    list.insert(i, owned);
    proof {
        let after = texts(list@);
        assert(after =~= before.insert(i as int, text@));
        assert forall|a: int, b: int| 0 <= a < b < after.len() implies text_lt(
            #[trigger] after[a],
            #[trigger] after[b],
        ) by {
            let at = i as int;
            if a < at && b == at {
                assert(after[a] == before[a]);
            } else if a == at {
                assert(after[b] == before[b - 1]);
                if b - 1 > at {
                    lemma_text_lt_transitive(text@, before[at], before[b - 1]);
                }
            } else if a < at && b > at {
                assert(after[a] == before[a]);
                assert(after[b] == before[b - 1]);
            } else if a > at {
                assert(after[a] == before[a - 1]);
                assert(after[b] == before[b - 1]);
            } else {
                assert(after[a] == before[a]);
                assert(after[b] == before[b]);
            }
        }
        assert forall|x: Seq<char>| #[trigger] after.contains(x) <==> before.contains(x) || x
            == text@ by {
            if after.contains(x) {
                let k = choose|k: int| 0 <= k < after.len() && after[k] == x;
                if k < i {
                    assert(before[k] == x);
                } else if k > i {
                    assert(before[k - 1] == x);
                }
            }
            if before.contains(x) {
                let k = choose|k: int| 0 <= k < before.len() && before[k] == x;
                if k < i {
                    assert(after[k] == x);
                } else {
                    assert(after[k + 1] == x);
                }
            }
            assert(after[i as int] == text@);
        }
    }
}

/// A strictly increasing list is determined by its members.
pub proof fn lemma_increasing_unique(a: Seq<Seq<char>>, b: Seq<Seq<char>>)
    requires
        increasing(a),
        increasing(b),
        forall|x: Seq<char>| #[trigger] a.contains(x) ==> b.contains(x),
        forall|x: Seq<char>| #[trigger] b.contains(x) ==> a.contains(x),
    ensures
        a == b,
    decreases a.len(),
{
    if a.len() == 0 {
        if b.len() > 0 {
            assert(b.contains(b[0]));
        }
        assert(a =~= b);
    } else {
        assert(a.contains(a[0]));
        assert(b.len() > 0);
        assert(b.contains(b[0]));
        let i = choose|i: int| 0 <= i < b.len() && b[i] == a[0];
        let j = choose|j: int| 0 <= j < a.len() && a[j] == b[0];
        if i > 0 && j > 0 {
            assert(text_lt(b[0], b[i]));
            assert(text_lt(a[0], a[j]));
            lemma_text_lt_asymmetric(a[0], b[0]);
        }
        assert(a[0] == b[0]);
        let x = a.drop_first();
        let y = b.drop_first();
        assert forall|t: Seq<char>| #[trigger] x.contains(t) implies y.contains(t) by {
            let k = choose|k: int| 0 <= k < x.len() && x[k] == t;
            assert(a[k + 1] == t);
            assert(a.contains(t));
            lemma_text_lt_asymmetric(a[0], a[k + 1]);
            let m = choose|m: int| 0 <= m < b.len() && b[m] == t;
            assert(y[m - 1] == t);
        }
        assert forall|t: Seq<char>| #[trigger] y.contains(t) implies x.contains(t) by {
            let k = choose|k: int| 0 <= k < y.len() && y[k] == t;
            assert(b[k + 1] == t);
            assert(b.contains(t));
            lemma_text_lt_asymmetric(b[0], b[k + 1]);
            let m = choose|m: int| 0 <= m < a.len() && a[m] == t;
            assert(x[m - 1] == t);
        }
        assert forall|p: int, q: int| 0 <= p < q < x.len() implies text_lt(
            #[trigger] x[p],
            #[trigger] x[q],
        ) by {
            assert(x[p] == a[p + 1]);
            assert(x[q] == a[q + 1]);
        }
        assert forall|p: int, q: int| 0 <= p < q < y.len() implies text_lt(
            #[trigger] y[p],
            #[trigger] y[q],
        ) by {
            assert(y[p] == b[p + 1]);
            assert(y[q] == b[q + 1]);
        }
        lemma_increasing_unique(x, y);
        assert(a =~= seq![a[0]] + x);
        assert(b =~= seq![b[0]] + y);
    }
}

/// Whether a list has the given members, each once and in text order.
pub open spec fn lists(list: Seq<Seq<char>>, members: Seq<Seq<char>>) -> bool {
    increasing(list) && forall|x: Seq<char>|
        #[trigger] list.contains(x) <==> members.contains(x)
}

/// The distinct members of a list, in text order.
pub open spec fn distinct(members: Seq<Seq<char>>) -> Seq<Seq<char>> {
    choose|list: Seq<Seq<char>>| lists(list, members)
}

/// A list with the right members is the distinct one.
pub proof fn lemma_distinct(list: Seq<Seq<char>>, members: Seq<Seq<char>>)
    requires
        lists(list, members),
    ensures
        distinct(members) == list,
{
    assert(lists(distinct(members), members));
    lemma_increasing_unique(distinct(members), list);
}

/// A list in text order with one more member.
spec fn inserted(list: Seq<Seq<char>>, x: Seq<char>) -> Seq<Seq<char>>
    decreases list.len(),
{
    if list.len() == 0 || text_lt(list.last(), x) {
        list.push(x)
    } else if list.last() == x {
        list
    } else {
        inserted(list.drop_last(), x).push(list.last())
    }
}

proof fn lemma_inserted(list: Seq<Seq<char>>, x: Seq<char>)
    requires
        increasing(list),
    ensures
        increasing(inserted(list, x)),
        forall|t: Seq<char>| #[trigger]
            inserted(list, x).contains(t) <==> list.contains(t) || t == x,
    decreases list.len(),
{
    let r = inserted(list, x);
    if list.len() == 0 || text_lt(list.last(), x) {
        assert forall|i: int, j: int| 0 <= i < j < r.len() implies text_lt(
            #[trigger] r[i],
            #[trigger] r[j],
        ) by {
            if j == list.len() {
                if i < list.len() - 1 {
                    assert(text_lt(list[i], list[list.len() - 1]));
                    lemma_text_lt_transitive(list[i], list.last(), x);
                }
            }
        }
        assert forall|t: Seq<char>| #[trigger] r.contains(t) <==> list.contains(t) || t == x by {
            assert(r[list.len() as int] == x);
            if list.contains(t) {
                let k = choose|k: int| 0 <= k < list.len() && list[k] == t;
                assert(r[k] == t);
            }
        }
    } else if list.last() == x {
        assert(list[list.len() - 1] == x);
    } else {
        let rest = list.drop_last();
        let inner = inserted(rest, x);
        lemma_text_lt_total(list.last(), x);
        assert forall|i: int, j: int| 0 <= i < j < rest.len() implies text_lt(
            #[trigger] rest[i],
            #[trigger] rest[j],
        ) by {
            assert(text_lt(list[i], list[j]));
        }
        lemma_inserted(rest, x);
        assert forall|i: int, j: int| 0 <= i < j < r.len() implies text_lt(
            #[trigger] r[i],
            #[trigger] r[j],
        ) by {
            if j < inner.len() {
                assert(text_lt(inner[i], inner[j]));
            } else {
                assert(inner.contains(inner[i]));
                if inner[i] != x {
                    let k = choose|k: int| 0 <= k < rest.len() && rest[k] == inner[i];
                    assert(text_lt(list[k], list[list.len() - 1]));
                }
            }
        }
        assert forall|t: Seq<char>| #[trigger] r.contains(t) <==> list.contains(t) || t == x by {
            assert(r[r.len() - 1] == list.last());
            if r.contains(t) {
                let k = choose|k: int| 0 <= k < r.len() && r[k] == t;
                if k < inner.len() {
                    assert(inner.contains(t));
                    if t != x {
                        let m = choose|m: int| 0 <= m < rest.len() && rest[m] == t;
                        assert(list[m] == t);
                    }
                } else {
                    assert(list[list.len() - 1] == t);
                }
            }
            if list.contains(t) || t == x {
                if t != list.last() {
                    if list.contains(t) {
                        let k = choose|k: int| 0 <= k < list.len() && list[k] == t;
                        assert(rest[k] == t);
                    }
                    assert(inner.contains(t));
                    let k = choose|k: int| 0 <= k < inner.len() && inner[k] == t;
                    assert(r[k] == t);
                }
            }
        }
    }
}

proof fn lemma_some_list(members: Seq<Seq<char>>) -> (list: Seq<Seq<char>>)
    ensures
        lists(list, members),
    decreases members.len(),
{
    if members.len() == 0 {
        members
    } else {
        let rest = members.drop_last();
        let earlier = lemma_some_list(rest);
        lemma_inserted(earlier, members.last());
        let list = inserted(earlier, members.last());
        assert forall|x: Seq<char>| #[trigger] list.contains(x) <==> members.contains(x) by {
            assert(members[members.len() - 1] == members.last());
            if members.contains(x) && x != members.last() {
                let k = choose|k: int| 0 <= k < members.len() && members[k] == x;
                assert(rest[k] == x);
            }
            if rest.contains(x) {
                let k = choose|k: int| 0 <= k < rest.len() && rest[k] == x;
                assert(members[k] == x);
            }
            assert(list.contains(x) <==> earlier.contains(x) || x == members.last());
            assert(earlier.contains(x) <==> rest.contains(x));
        }
        list
    }
}

/// The distinct members of a list are its members, each once and in text
/// order.
pub proof fn law_distinct_members_are_the_members(members: Seq<Seq<char>>)
    ensures
        forall|i: int, j: int|
            0 <= i < j < distinct(members).len() ==> text_lt(
                #[trigger] distinct(members)[i],
                #[trigger] distinct(members)[j],
            ),
        forall|x: Seq<char>| #[trigger] distinct(members).contains(x) <==> members.contains(x),
{
    let list = lemma_some_list(members);
    lemma_distinct(list, members);
}

} // verus!
