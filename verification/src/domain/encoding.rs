//! The `b64u:` text form of byte strings.
//!
//! A byte string is written as the tag `b64u:` and its unpadded base64url
//! digits. Every byte string has exactly one text, and every other text is
//! refused: padding, foreign characters, truncated groups and stray low bits.
//! The tag and this strictness are this library's own rules.
use vstd::prelude::*;

use crate::domain::ids::starts_with;
use crate::text::{chars_of, join2};

verus! {

/// The tag in front of the digits.
pub const B64U_TAG: &'static str = "b64u:";

/// The base64url digit for a value below 64.
pub open spec fn digit64(n: int) -> char {
    if n < 26 {
        (('A' as int) + n) as char
    } else if n < 52 {
        (('a' as int) + (n - 26)) as char
    } else if n < 62 {
        (('0' as int) + (n - 52)) as char
    } else if n == 62 {
        '-'
    } else {
        '_'
    }
}

/// The base64url digits of a byte string.
pub open spec fn base64url(bytes: Seq<u8>) -> Seq<char>
    decreases bytes.len(),
{
    if bytes.len() == 0 {
        Seq::empty()
    } else if bytes.len() == 1 {
        seq![digit64(bytes[0] as int / 4), digit64(bytes[0] as int % 4 * 16)]
    } else if bytes.len() == 2 {
        seq![
            digit64(bytes[0] as int / 4),
            digit64(bytes[0] as int % 4 * 16 + bytes[1] as int / 16),
            digit64(bytes[1] as int % 16 * 4),
        ]
    } else {
        group(bytes[0], bytes[1], bytes[2]) + base64url(bytes.skip(3))
    }
}

/// The four digits of three bytes.
pub open spec fn group(a: u8, b: u8, c: u8) -> Seq<char> {
    seq![
        digit64(a as int / 4),
        digit64(a as int % 4 * 16 + b as int / 16),
        digit64(b as int % 16 * 4 + c as int / 64),
        digit64(c as int % 64),
    ]
}

/// The `b64u:` text of a byte string.
pub open spec fn b64u(bytes: Seq<u8>) -> Seq<char> {
    B64U_TAG@ + base64url(bytes)
}

/// The value of a base64url digit.
pub open spec fn value64(c: char) -> Option<int> {
    if 'A' <= c && c <= 'Z' {
        Some(c as int - 'A' as int)
    } else if 'a' <= c && c <= 'z' {
        Some(c as int - 'a' as int + 26)
    } else if '0' <= c && c <= '9' {
        Some(c as int - '0' as int + 52)
    } else if c == '-' {
        Some(62)
    } else if c == '_' {
        Some(63)
    } else {
        None
    }
}

proof fn lemma_digit_value(n: int)
    requires
        0 <= n < 64,
    ensures
        value64(digit64(n)) == Some(n),
{
}

proof fn lemma_value_digit(c: char)
    requires
        value64(c) is Some,
    ensures
        0 <= value64(c)->0 < 64,
        digit64(value64(c)->0) == c,
{
}

fn digit(n: u8) -> (r: char)
    requires
        n < 64,
    ensures
        r == digit64(n as int),
{
    if n < 26 {
        (65 + n) as char
    } else if n < 52 {
        (97 + (n - 26)) as char
    } else if n < 62 {
        (48 + (n - 52)) as char
    } else if n == 62 {
        '-'
    } else {
        '_'
    }
}

fn value(c: char) -> (r: Option<u8>)
    ensures
        match r {
            Some(n) => n < 64 && value64(c) == Some(n as int),
            None => value64(c) is None,
        },
{
    if 'A' <= c && c <= 'Z' {
        Some((c as u32 - 65) as u8)
    } else if 'a' <= c && c <= 'z' {
        Some((c as u32 - 97 + 26) as u8)
    } else if '0' <= c && c <= '9' {
        Some((c as u32 - 48 + 52) as u8)
    } else if c == '-' {
        Some(62)
    } else if c == '_' {
        Some(63)
    } else {
        None
    }
}

/// Whole groups can be split off in front.
proof fn lemma_concat(a: Seq<u8>, b: Seq<u8>)
    requires
        a.len() % 3 == 0,
    ensures
        base64url(a + b) == base64url(a) + base64url(b),
    decreases a.len(),
{
    if a.len() == 0 {
        assert(a + b =~= b);
        assert(base64url(a) + base64url(b) =~= base64url(b));
    } else {
        assert((a + b).skip(3) =~= a.skip(3) + b);
        lemma_concat(a.skip(3), b);
        let head = group(a[0], a[1], a[2]);
        assert(base64url(a) == head + base64url(a.skip(3)));
        assert(base64url(a + b) == head + base64url(a.skip(3) + b));
        assert(head + (base64url(a.skip(3)) + base64url(b)) =~= (head + base64url(a.skip(3)))
            + base64url(b));
    }
}

/// Three more bytes add their four digits.
proof fn lemma_next_group(bytes: Seq<u8>, a: u8, b: u8, c: u8)
    requires
        bytes.len() % 3 == 0,
    ensures
        base64url(bytes + seq![a, b, c]) == base64url(bytes) + group(a, b, c),
{
    let three = seq![a, b, c];
    lemma_concat(bytes, three);
    assert(base64url(three.skip(3)) =~= Seq::<char>::empty());
    assert(base64url(three) =~= group(a, b, c));
}

/// What every digit string looks like.
proof fn lemma_shape(bytes: Seq<u8>)
    ensures
        bytes.len() % 3 == 0 ==> base64url(bytes).len() == bytes.len() / 3 * 4,
        bytes.len() % 3 == 1 ==> base64url(bytes).len() == bytes.len() / 3 * 4 + 2 && value64(
            base64url(bytes).last(),
        ) is Some && value64(base64url(bytes).last())->0 % 16 == 0,
        bytes.len() % 3 == 2 ==> base64url(bytes).len() == bytes.len() / 3 * 4 + 3 && value64(
            base64url(bytes).last(),
        ) is Some && value64(base64url(bytes).last())->0 % 4 == 0,
        forall|i: int|
            0 <= i < base64url(bytes).len() ==> value64(#[trigger] base64url(bytes)[i]) is Some,
    decreases bytes.len(),
{
    if bytes.len() == 0 {
    } else if bytes.len() == 1 {
        lemma_digit_value(bytes[0] as int / 4);
        lemma_digit_value(bytes[0] as int % 4 * 16);
    } else if bytes.len() == 2 {
        lemma_digit_value(bytes[0] as int / 4);
        lemma_digit_value(bytes[0] as int % 4 * 16 + bytes[1] as int / 16);
        lemma_digit_value(bytes[1] as int % 16 * 4);
    } else {
        let (a, b, c) = (bytes[0] as int, bytes[1] as int, bytes[2] as int);
        lemma_digit_value(a / 4);
        lemma_digit_value(a % 4 * 16 + b / 16);
        lemma_digit_value(b % 16 * 4 + c / 64);
        lemma_digit_value(c % 64);
        let rest = bytes.skip(3);
        lemma_shape(rest);
        let head = group(bytes[0], bytes[1], bytes[2]);
        assert(base64url(bytes) == head + base64url(rest));
        assert forall|i: int| 0 <= i < base64url(bytes).len() implies value64(
            #[trigger] base64url(bytes)[i],
        ) is Some by {
            if i >= 4 {
                assert(base64url(bytes)[i] == base64url(rest)[i - 4]);
            }
        }
        if rest.len() % 3 != 0 {
            assert(base64url(bytes).last() == base64url(rest).last());
        }
    }
}

/// Different byte strings have different digits.
proof fn lemma_injective(x: Seq<u8>, y: Seq<u8>)
    requires
        base64url(x) == base64url(y),
    ensures
        x == y,
    decreases x.len(),
{
    lemma_shape(x);
    lemma_shape(y);
    assert(x.len() == y.len());
    let (dx, dy) = (base64url(x), base64url(y));
    if x.len() == 0 {
        assert(x =~= y);
    } else if x.len() == 1 {
        assert(dx[0] == dy[0] && dx[1] == dy[1]);
        lemma_digit_value(x[0] as int / 4);
        lemma_digit_value(x[0] as int % 4 * 16);
        lemma_digit_value(y[0] as int / 4);
        lemma_digit_value(y[0] as int % 4 * 16);
        assert(x =~= y);
    } else if x.len() == 2 {
        assert(dx[0] == dy[0] && dx[1] == dy[1] && dx[2] == dy[2]);
        lemma_digit_value(x[0] as int / 4);
        lemma_digit_value(x[0] as int % 4 * 16 + x[1] as int / 16);
        lemma_digit_value(x[1] as int % 16 * 4);
        lemma_digit_value(y[0] as int / 4);
        lemma_digit_value(y[0] as int % 4 * 16 + y[1] as int / 16);
        lemma_digit_value(y[1] as int % 16 * 4);
        assert(x =~= y);
    } else {
        assert(dx[0] == dy[0] && dx[1] == dy[1] && dx[2] == dy[2] && dx[3] == dy[3]);
        lemma_digit_value(x[0] as int / 4);
        lemma_digit_value(x[0] as int % 4 * 16 + x[1] as int / 16);
        lemma_digit_value(x[1] as int % 16 * 4 + x[2] as int / 64);
        lemma_digit_value(x[2] as int % 64);
        lemma_digit_value(y[0] as int / 4);
        lemma_digit_value(y[0] as int % 4 * 16 + y[1] as int / 16);
        lemma_digit_value(y[1] as int % 16 * 4 + y[2] as int / 64);
        lemma_digit_value(y[2] as int % 64);
        assert(x[0] == y[0] && x[1] == y[1] && x[2] == y[2]);
        assert(dx.skip(4) =~= base64url(x.skip(3)));
        assert(dy.skip(4) =~= base64url(y.skip(3)));
        lemma_injective(x.skip(3), y.skip(3));
        assert forall|i: int| 0 <= i < x.len() implies x[i] == y[i] by {
            if i >= 3 {
                assert(x[i] == x.skip(3)[i - 3]);
                assert(y[i] == y.skip(3)[i - 3]);
            }
        }
        assert(x =~= y);
    }
}

/// The `b64u:` text determines the byte string.
pub proof fn law_b64u_is_injective(x: Seq<u8>, y: Seq<u8>)
    requires
        b64u(x) == b64u(y),
    ensures
        x == y,
{
    let tag = B64U_TAG@;
    assert(b64u(x).skip(tag.len() as int) =~= base64url(x));
    assert(b64u(y).skip(tag.len() as int) =~= base64url(y));
    lemma_injective(x, y);
}

/// The `b64u:` text of a byte string.
pub fn to_b64u(bytes: &Vec<u8>) -> (r: String)
    ensures
        r@ == b64u(bytes@),
{
    let mut digits = String::new();
    let mut i: usize = 0;
    while bytes.len() - i >= 3
        invariant
            i <= bytes@.len(),
            i % 3 == 0,
            digits@ == base64url(bytes@.take(i as int)),
        decreases bytes@.len() - i,
    {
        let (a, b, c): (u8, u8, u8) = (bytes[i], bytes[i + 1], bytes[i + 2]);
        digits.push(digit(a / 4));
        digits.push(digit(a % 4 * 16 + b / 16));
        digits.push(digit(b % 16 * 4 + c / 64));
        digits.push(digit(c % 64));
        proof {
            lemma_next_group(bytes@.take(i as int), a, b, c);
            assert(bytes@.take(i + 3) =~= bytes@.take(i as int) + seq![a, b, c]);
        }
        i = i + 3;
    }
    let ghost whole = bytes@.take(i as int);
    if bytes.len() - i == 1 {
        let a: u8 = bytes[i];
        digits.push(digit(a / 4));
        digits.push(digit(a % 4 * 16));
        proof {
            lemma_concat(whole, seq![a]);
            assert(bytes@ =~= whole + seq![a]);
        }
    } else if bytes.len() - i == 2 {
        let (a, b): (u8, u8) = (bytes[i], bytes[i + 1]);
        digits.push(digit(a / 4));
        digits.push(digit(a % 4 * 16 + b / 16));
        digits.push(digit(b % 16 * 4));
        proof {
            lemma_concat(whole, seq![a, b]);
            assert(bytes@ =~= whole + seq![a, b]);
        }
    } else {
        assert(bytes@ =~= whole);
    }
    assert(digits@ =~= base64url(bytes@));
    join2(B64U_TAG, digits.as_str())
}

/// Whether a text is the `b64u:` text of some byte string.
pub open spec fn is_b64u(text: Seq<char>) -> bool {
    exists|bytes: Seq<u8>| #[trigger] b64u(bytes) == text
}

/// The digits after whole groups are those of the bytes after them.
proof fn lemma_rest(bytes: Seq<u8>, groups: nat)
    requires
        4 * groups <= base64url(bytes).len(),
    ensures
        base64url(bytes).skip(4 * groups as int) == base64url(bytes.skip(3 * groups as int)),
{
    lemma_shape(bytes);
    let head = bytes.take(3 * groups as int);
    let rest = bytes.skip(3 * groups as int);
    assert(bytes =~= head + rest);
    lemma_concat(head, rest);
    lemma_shape(head);
    assert(base64url(bytes).skip(4 * groups as int) =~= base64url(rest));
}

/// The bytes of fewer than four digits.
fn decode_rest(chars: &Vec<char>, from: usize) -> (r: Option<Vec<u8>>)
    requires
        chars@.len() - 4 < from <= chars@.len(),
    ensures
        match r {
            Some(bytes) => base64url(bytes@) == chars@.skip(from as int),
            None => forall|bytes: Seq<u8>| #[trigger]
                base64url(bytes) != chars@.skip(from as int),
        },
{
    let ghost rest = chars@.skip(from as int);
    let left: usize = chars.len() - from;
    let mut bytes: Vec<u8> = Vec::new();
    if left == 0 {
        assert(base64url(bytes@) =~= rest);
        return Some(bytes);
    }
    proof {
        assert forall|b: Seq<u8>| #[trigger] base64url(b) == rest implies rest.len() >= 2
            && value64(rest[0]) is Some && value64(rest[1]) is Some && (rest.len() == 2 ==> value64(
            rest[1],
        )->0 % 16 == 0) && (rest.len() == 3 ==> value64(rest[2]) is Some && value64(rest[2])->0 % 4
            == 0) by {
            lemma_shape(b);
            assert(base64url(b).last() == rest[rest.len() - 1]);
        }
    }
    if left == 1 {
        return None;
    }
    let p: u8 = match value(chars[from]) {
        Some(p) => p,
        None => return None,
    };
    let q: u8 = match value(chars[from + 1]) {
        Some(q) => q,
        None => return None,
    };
    proof {
        lemma_value_digit(rest[0]);
        lemma_value_digit(rest[1]);
    }
    let a: u8 = p * 4 + q / 16;
    bytes.push(a);
    if left == 2 {
        if q % 16 != 0 {
            return None;
        }
        assert(bytes@ =~= seq![a]);
        assert(base64url(bytes@) =~= rest);
        return Some(bytes);
    }
    let s: u8 = match value(chars[from + 2]) {
        Some(s) => s,
        None => return None,
    };
    if s % 4 != 0 {
        return None;
    }
    proof {
        lemma_value_digit(rest[2]);
    }
    let b: u8 = q % 16 * 16 + s / 4;
    bytes.push(b);
    assert(bytes@ =~= seq![a, b]);
    assert(base64url(bytes@) =~= rest);
    Some(bytes)
}

/// The bytes of a digit string.
fn decode(chars: &Vec<char>, from: usize) -> (r: Option<Vec<u8>>)
    requires
        from <= chars@.len(),
    ensures
        match r {
            Some(bytes) => base64url(bytes@) == chars@.skip(from as int),
            None => forall|bytes: Seq<u8>| #[trigger]
                base64url(bytes) != chars@.skip(from as int),
        },
{
    let ghost digits = chars@.skip(from as int);
    let mut bytes: Vec<u8> = Vec::new();
    let mut i: usize = from;
    assert(digits.take(0) =~= base64url(bytes@));
    while chars.len() - i >= 4
        invariant
            from <= i <= chars@.len(),
            (i - from) % 4 == 0,
            digits == chars@.skip(from as int),
            bytes@.len() % 3 == 0,
            digits.take(i - from) == base64url(bytes@),
        decreases chars@.len() - i,
    {
        proof {
            assert forall|b: Seq<u8>| #[trigger] base64url(b) == digits implies value64(
                chars@[i as int],
            ) is Some && value64(chars@[i + 1]) is Some && value64(chars@[i + 2]) is Some
                && value64(chars@[i + 3]) is Some by {
                lemma_shape(b);
                assert(digits[i - from] == chars@[i as int]);
                assert(digits[i - from + 1] == chars@[i + 1]);
                assert(digits[i - from + 2] == chars@[i + 2]);
                assert(digits[i - from + 3] == chars@[i + 3]);
            }
        }
        let p: u8 = match value(chars[i]) {
            Some(p) => p,
            None => return None,
        };
        let q: u8 = match value(chars[i + 1]) {
            Some(q) => q,
            None => return None,
        };
        let s: u8 = match value(chars[i + 2]) {
            Some(s) => s,
            None => return None,
        };
        let t: u8 = match value(chars[i + 3]) {
            Some(t) => t,
            None => return None,
        };
        let (a, b, c): (u8, u8, u8) = (p * 4 + q / 16, q % 16 * 16 + s / 4, s % 4 * 64 + t);
        proof {
            lemma_next_group(bytes@, a, b, c);
            lemma_value_digit(chars@[i as int]);
            lemma_value_digit(chars@[i + 1]);
            lemma_value_digit(chars@[i + 2]);
            lemma_value_digit(chars@[i + 3]);
            assert(digits.take(i + 4 - from) =~= digits.take(i - from) + group(a, b, c));
            assert(bytes@.push(a).push(b).push(c) =~= bytes@ + seq![a, b, c]);
        }
        bytes.push(a);
        bytes.push(b);
        bytes.push(c);
        i = i + 4;
    }
    let ghost whole = bytes@;
    let ghost groups = ((i - from) / 4) as nat;
    assert(digits.skip(i - from) =~= chars@.skip(i as int));
    match decode_rest(chars, i) {
        Some(rest) => {
            proof {
                lemma_concat(whole, rest@);
                assert(digits =~= digits.take(i - from) + digits.skip(i - from));
            }
            let mut rest = rest;
            bytes.append(&mut rest);
            Some(bytes)
        },
        None => {
            proof {
                assert forall|b: Seq<u8>| #[trigger] base64url(b) != digits by {
                    if base64url(b) == digits {
                        lemma_rest(b, groups);
                        assert(base64url(b.skip(3 * groups as int)) == chars@.skip(i as int));
                    }
                }
            }
            None
        },
    }
}

/// The byte string of a `b64u:` text.
pub fn from_b64u(text: &str) -> (r: Option<Vec<u8>>)
    ensures
        match r {
            Some(bytes) => text@ == b64u(bytes@),
            None => !is_b64u(text@),
        },
{
    if !starts_with(text, B64U_TAG) {
        proof {
            if is_b64u(text@) {
                let bytes = choose|bytes: Seq<u8>| #[trigger] b64u(bytes) == text@;
                assert(text@.take(B64U_TAG@.len() as int) =~= B64U_TAG@);
            }
        }
        return None;
    }
    let chars = chars_of(text);
    let start: usize = chars_of(B64U_TAG).len();
    let r = decode(&chars, start);
    proof {
        assert(text@ =~= B64U_TAG@ + text@.skip(start as int));
        if r is None && is_b64u(text@) {
            let bytes = choose|bytes: Seq<u8>| #[trigger] b64u(bytes) == text@;
            assert(text@.skip(start as int) =~= base64url(bytes));
        }
    }
    r
}

} // verus!
