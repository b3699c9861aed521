//! Decimal numerals: reading a field tag and writing a number.

use crate::lexis::{char_is_digit, is_digit};
use vstd::prelude::*;

verus! {

/// The value of a decimal digit.
pub open spec fn digit_value(c: char) -> int {
    c as int - '0' as int
}

/// The value of a numeral, read as a decimal number.
pub open spec fn decimal_value(s: Seq<char>) -> int
    decreases s.len(),
{
    if s.len() == 0 {
        0
    } else {
        decimal_value(s.drop_last()) * 10 + digit_value(s.last())
    }
}

/// Whether `s` is a numeral: one decimal digit or more.
pub open spec fn is_numeral(s: Seq<char>) -> bool {
    s.len() > 0 && forall|i: int| 0 <= i < s.len() ==> is_digit(s[i])
}

/// The number that a numeral denotes, where it fits in 32 bits.
pub open spec fn decimal_u32(s: Seq<char>) -> Option<u32> {
    if is_numeral(s) && decimal_value(s) <= u32::MAX {
        Some(decimal_value(s) as u32)
    } else {
        None
    }
}

/// A prefix of a numeral denotes no more than the numeral.
pub proof fn lemma_prefix_value(s: Seq<char>, k: int)
    requires
        0 <= k <= s.len(),
        forall|i: int| 0 <= i < s.len() ==> is_digit(s[i]),
    ensures
        0 <= decimal_value(s.take(k)) <= decimal_value(s),
    decreases s.len() - k,
{
    if k == s.len() {
        assert(s.take(k) =~= s);
        lemma_value_nonnegative(s);
    } else {
        lemma_prefix_value(s, k + 1);
        let t = s.take(k + 1);
        assert(t.drop_last() =~= s.take(k));
        assert(t.last() == s[k]);
        lemma_value_nonnegative(s.take(k));
    }
}

/// A sequence of digits denotes no negative number.
pub proof fn lemma_value_nonnegative(s: Seq<char>)
    requires
        forall|i: int| 0 <= i < s.len() ==> is_digit(s[i]),
    ensures
        0 <= decimal_value(s),
    decreases s.len(),
{
    if s.len() > 0 {
        lemma_value_nonnegative(s.drop_last());
    }
}

/// Reads a numeral; `None` when the text is no numeral or denotes a number
/// that does not fit in 32 bits.
pub fn parse_u32(text: &str) -> (res: Option<u32>)
    ensures
        res == decimal_u32(text@),
{
    let mut acc: u32 = 0;
    let mut any = false;
    for c in it: text.chars()
        invariant
            it.seq() == text@,
            any == (it.index() > 0),
            forall|i: int| 0 <= i < it.index() ==> is_digit(text@[i]),
            acc == decimal_value(text@.take(it.index() as int)),
    {
        if !char_is_digit(c) {
            return None;
        }
        let d: u32 = c as u32 - '0' as u32;
        proof {
            let t = text@.take(it.index() + 1);
            assert(t.drop_last() =~= text@.take(it.index() as int));
            assert(t.last() == c);
        }
        if acc > (u32::MAX - d) / 10 {
            proof {
                if is_numeral(text@) {
                    lemma_prefix_value(text@, it.index() + 1);
                }
            }
            return None;
        }
        acc = acc * 10 + d;
        any = true;
    }
    proof {
        assert(text@.take(text@.len() as int) =~= text@);
    }
    if !any {
        None
    } else {
        Some(acc)
    }
}

/// The character of a digit's value.
pub open spec fn digit_char(d: int) -> char {
    (d + '0' as int) as char
}

/// The decimal numeral of a number, without leading zeros.
pub open spec fn decimal_text(n: nat) -> Seq<char>
    decreases n,
{
    if n < 10 {
        seq![digit_char(n as int)]
    } else {
        decimal_text(n / 10).push(digit_char((n % 10) as int))
    }
}

/// Appends the decimal numeral of `n` to `s`.
pub fn push_decimal(s: &mut String, n: u32)
    ensures
        final(s)@ == old(s)@ + decimal_text(n as nat),
    decreases n,
{
    if n >= 10 {
        push_decimal(s, n / 10);
    }
    let d: u8 = (n % 10) as u8;
    let c: char = (d + 48u8) as char;
    s.push(c);
    proof {
        assert(c == digit_char((n % 10) as int));
        if n < 10 {
            assert(old(s)@.push(c) =~= old(s)@ + seq![c]);
        } else {
            assert((old(s)@ + decimal_text((n / 10) as nat)).push(c) =~= old(s)@ + decimal_text(
                (n / 10) as nat,
            ).push(c));
        }
    }
}

/// The numeral written for a number reads back as that number.
pub proof fn lemma_decimal_round_trip(n: nat)
    ensures
        is_numeral(decimal_text(n)),
        decimal_value(decimal_text(n)) == n,
    decreases n,
{
    if n < 10 {
        let s = decimal_text(n);
        assert(s.drop_last() =~= Seq::<char>::empty());
        assert(decimal_value(s.drop_last()) == 0);
    } else {
        lemma_decimal_round_trip(n / 10);
        let s = decimal_text(n);
        assert(s.drop_last() =~= decimal_text(n / 10));
    }
}

} // verus!
