//! Exact amounts: non-negative integers with a canonical decimal text form.
//!
//! Economic quantities never touch floating point. An [`Amount`] is a `u128`;
//! its text form is the usual decimal notation without sign, separators or
//! superfluous leading zeros, so every amount has exactly one text and every
//! accepted text names exactly one amount. The range and the text form are this
//! library's own rules.
use vstd::prelude::*;

use crate::text::chars_of;

verus! {

/// The decimal digit for a value below ten.
pub open spec fn digit_char(d: nat) -> char {
    if d == 0 {
        '0'
    } else if d == 1 {
        '1'
    } else if d == 2 {
        '2'
    } else if d == 3 {
        '3'
    } else if d == 4 {
        '4'
    } else if d == 5 {
        '5'
    } else if d == 6 {
        '6'
    } else if d == 7 {
        '7'
    } else if d == 8 {
        '8'
    } else {
        '9'
    }
}

/// The canonical decimal notation of a natural number.
pub open spec fn decimal(n: nat) -> Seq<char>
    decreases n,
{
    if n < 10 {
        seq![digit_char(n)]
    } else {
        decimal(n / 10).push(digit_char(n % 10))
    }
}

/// The amount that a text denotes: the one whose decimal notation it is.
pub open spec fn amount_of(text: Seq<char>) -> Option<u128> {
    if exists|n: u128| decimal(n as nat) == text {
        Some(choose|n: u128| decimal(n as nat) == text)
    } else {
        None
    }
}

/// Decimal notation is never empty, and starts with a zero only for zero.
pub proof fn lemma_decimal_shape(n: nat)
    ensures
        decimal(n).len() >= 1,
        decimal(n)[0] == '0' ==> n == 0,
        forall|i: int| 0 <= i < decimal(n).len() ==> is_digit(#[trigger] decimal(n)[i]),
        n >= 10 ==> decimal(n).len() >= 2,
    decreases n,
{
    if n >= 10 {
        lemma_decimal_shape(n / 10);
        assert(decimal(n)[0] == decimal(n / 10)[0]);
        assert forall|i: int| 0 <= i < decimal(n).len() implies is_digit(
            #[trigger] decimal(n)[i],
        ) by {
            if i < decimal(n / 10).len() {
                assert(decimal(n)[i] == decimal(n / 10)[i]);
            }
        }
    }
}

/// A decimal digit character.
pub open spec fn is_digit(c: char) -> bool {
    exists|d: nat| d < 10 && c == digit_char(d)
}

/// Different numbers have different decimal notations.
pub proof fn lemma_decimal_injective(a: nat, b: nat)
    requires
        decimal(a) == decimal(b),
    ensures
        a == b,
    decreases a,
{
    lemma_decimal_shape(a);
    lemma_decimal_shape(b);
    if a < 10 {
        assert(decimal(a).len() == 1);
        assert(decimal(b)[0] == decimal(a)[0]);
    } else {
        assert(decimal(b).len() >= 2);
        assert(b >= 10);
        assert(decimal(a).drop_last() =~= decimal(a / 10));
        assert(decimal(b).drop_last() =~= decimal(b / 10));
        lemma_decimal_injective(a / 10, b / 10);
        assert(decimal(a).last() == digit_char(a % 10));
        assert(decimal(b).last() == digit_char(b % 10));
        assert(a == (a / 10) * 10 + a % 10);
        assert(b == (b / 10) * 10 + b % 10);
    }
}

/// Every non-empty prefix of a decimal notation is the notation of a number
/// that is no larger.
proof fn lemma_decimal_prefix(n: nat, len: int) -> (m: nat)
    requires
        1 <= len <= decimal(n).len(),
    ensures
        m <= n,
        decimal(m) == decimal(n).take(len),
    decreases n,
{
    if len == decimal(n).len() {
        assert(decimal(n).take(len) =~= decimal(n));
        n
    } else {
        assert(n >= 10);
        assert(decimal(n).take(len) =~= decimal(n / 10).take(len));
        lemma_decimal_prefix(n / 10, len)
    }
}

/// The text of an amount denotes that amount.
pub proof fn lemma_amount_of_decimal(n: u128)
    ensures
        amount_of(decimal(n as nat)) == Some(n),
{
    let text = decimal(n as nat);
    assert(exists|k: u128| decimal(k as nat) == text);
    let k = choose|k: u128| decimal(k as nat) == text;
    lemma_decimal_injective(k as nat, n as nat);
}

/// A fixed-point amount: an exact, non-negative integer.
#[derive(Debug, Clone, Copy, PartialEq, Eq, PartialOrd, Ord, Hash, Structural)]
pub struct Amount {
    /// The integer value.
    pub value: u128,
}

fn digit_str(d: u128) -> (r: &'static str)
    requires
        d < 10,
    ensures
        r@ == seq![digit_char(d as nat)],
{
    proof {
        reveal_strlit("0");
        reveal_strlit("1");
        reveal_strlit("2");
        reveal_strlit("3");
        reveal_strlit("4");
        reveal_strlit("5");
        reveal_strlit("6");
        reveal_strlit("7");
        reveal_strlit("8");
        reveal_strlit("9");
    }
    if d == 0 {
        "0"
    } else if d == 1 {
        "1"
    } else if d == 2 {
        "2"
    } else if d == 3 {
        "3"
    } else if d == 4 {
        "4"
    } else if d == 5 {
        "5"
    } else if d == 6 {
        "6"
    } else if d == 7 {
        "7"
    } else if d == 8 {
        "8"
    } else {
        "9"
    }
}

fn digit_value(c: char) -> (r: Option<u128>)
    ensures
        match r {
            Some(d) => d < 10 && c == digit_char(d as nat),
            None => !is_digit(c),
        },
{
    if c == '0' {
        Some(0)
    } else if c == '1' {
        Some(1)
    } else if c == '2' {
        Some(2)
    } else if c == '3' {
        Some(3)
    } else if c == '4' {
        Some(4)
    } else if c == '5' {
        Some(5)
    } else if c == '6' {
        Some(6)
    } else if c == '7' {
        Some(7)
    } else if c == '8' {
        Some(8)
    } else if c == '9' {
        Some(9)
    } else {
        None
    }
}

/// The decimal notation of an integer.
pub fn decimal_text(n: u128) -> (r: String)
    ensures
        r@ == decimal(n as nat),
    decreases n,
{
    if n < 10 {
        digit_str(n).to_owned()
    } else {
        let mut text = decimal_text(n / 10);
        text.append(digit_str(n % 10));
        text
    }
}

impl Amount {
    /// The zero amount.
    pub fn zero() -> (r: Self)
        ensures
            r.value == 0,
    {
        Amount { value: 0 }
    }

    /// The amount with the given integer value.
    pub fn from_u128(value: u128) -> (r: Self)
        ensures
            r.value == value,
    {
        Amount { value }
    }

    /// Parses a canonical non-negative integer text.
    ///
    /// `None` when the text is not in canonical form or does not fit.
    pub fn try_from_str(text: &str) -> (r: Option<Self>)
        ensures
            match r {
                Some(a) => amount_of(text@) == Some(a.value),
                None => amount_of(text@) is None,
            },
    {
        let chars = chars_of(text);
        if chars.len() == 0 {
            proof {
                if amount_of(text@) is Some {
                    lemma_decimal_shape(amount_of(text@)->0 as nat);
                }
            }
            return None;
        }
        let mut value: u128 = 0;
        let mut i: usize = 0;
        while i < chars.len()
            invariant
                chars@ == text@,
                i <= chars@.len(),
                i == 0 ==> value == 0,
                i > 0 ==> chars@.take(i as int) == decimal(value as nat),
            decreases chars@.len() - i,
        {
            let c: char = chars[i];
            let ghost whole = text@;
            proof {
                if amount_of(whole) is Some {
                    lemma_decimal_shape(amount_of(whole)->0 as nat);
                    assert(is_digit(decimal(amount_of(whole)->0 as nat)[i as int]));
                }
            }
            match digit_value(c) {
                None => {
                    return None;
                },
                Some(d) => {
                    if i > 0 && value == 0 {
                        proof {
                            if amount_of(whole) is Some {
                                let n = amount_of(whole)->0 as nat;
                                assert(whole[0] == chars@.take(i as int)[0]);
                                assert(decimal(0)[0] == '0');
                                assert(decimal(n)[0] == '0');
                                assert(decimal(0).len() == 1);
                            }
                        }
                        return None;
                    }
                    let ghost before = value as nat;
                    proof {
                        assert(chars@.take(i + 1) =~= chars@.take(i as int).push(c));
                        if i > 0 {
                            assert((before * 10 + d as nat) / 10 == before);
                            assert((before * 10 + d as nat) % 10 == d as nat);
                            assert(decimal(before * 10 + d as nat) == decimal(before).push(c));
                        } else {
                            assert(chars@.take(1) =~= seq![c]);
                        }
                        assert(chars@.take(i + 1) == decimal(before * 10 + d as nat));
                    }
                    let scaled = value.checked_mul(10);
                    let next = match scaled {
                        Some(v) => v.checked_add(d),
                        None => None,
                    };
                    match next {
                        Some(v) => {
                            value = v;
                        },
                        None => {
                            proof {
                                if amount_of(whole) is Some {
                                    let n = amount_of(whole)->0 as nat;
                                    let m = lemma_decimal_prefix(n, i + 1);
                                    lemma_decimal_injective(m, before * 10 + d as nat);
                                }
                            }
                            return None;
                        },
                    }
                },
            }
            i = i + 1;
        }
        proof {
            assert(chars@.take(i as int) =~= text@);
            lemma_amount_of_decimal(value);
        }
        Some(Amount { value })
    }

    /// The canonical text of the amount.
    pub fn to_canonical_string(&self) -> (r: String)
        ensures
            r@ == decimal(self.value as nat),
            amount_of(r@) == Some(self.value),
    {
        proof {
            lemma_amount_of_decimal(self.value);
        }
        decimal_text(self.value)
    }

    /// The sum, unless it does not fit.
    pub fn checked_add(self, other: Self) -> (r: Option<Self>)
        ensures
            match r {
                Some(s) => s.value == self.value + other.value,
                None => self.value + other.value > u128::MAX,
            },
    {
        match self.value.checked_add(other.value) {
            Some(value) => Some(Amount { value }),
            None => None,
        }
    }

    /// The difference, unless it would be negative.
    pub fn checked_sub(self, other: Self) -> (r: Option<Self>)
        ensures
            match r {
                Some(s) => s.value == self.value - other.value,
                None => self.value < other.value,
            },
    {
        if self.value >= other.value {
            Some(Amount { value: self.value - other.value })
        } else {
            None
        }
    }

    /// The smaller of two amounts.
    pub fn smaller(self, other: Self) -> (r: Self)
        ensures
            r.value <= self.value,
            r.value <= other.value,
            r.value == self.value || r.value == other.value,
    {
        if self.value <= other.value {
            self
        } else {
            other
        }
    }
}

} // verus!
