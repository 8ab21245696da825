//! Reading the text of an integer literal, and readying the text of other
//! numbers for their reader.

use vstd::prelude::*;
use crate::chars::{is_digit, spec_is_digit};

verus! {

/// Whether every character of `s` is a decimal digit.
pub open spec fn all_digits(s: Seq<char>) -> bool {
    forall|k: int| 0 <= k < s.len() ==> spec_is_digit(#[trigger] s[k])
}

/// The number that a digit stands for.
pub open spec fn digit_value(c: char) -> int {
    c as int - '0' as int
}

/// The number that a run of decimal digits writes.
pub open spec fn digits_value(s: Seq<char>) -> int
    decreases s.len(),
{
    if s.len() == 0 {
        0
    } else {
        10 * digits_value(s.drop_last()) + digit_value(s.last())
    }
}

/// Whether `s` begins with a sign.
pub open spec fn has_sign(s: Seq<char>) -> bool {
    s.len() > 0 && (s[0] == '-' || s[0] == '+')
}

/// The digits of an integer literal: the text without its sign.
pub open spec fn unsigned_part(s: Seq<char>) -> Seq<char> {
    if has_sign(s) {
        s.subrange(1, s.len() as int)
    } else {
        s
    }
}

/// The 64-bit signed integer that `s` writes: an optional sign, then one
/// decimal digit or more and nothing else. Text of any other shape, or whose
/// number does not fit, writes none.
pub open spec fn integer_literal(s: Seq<char>) -> Option<i64> {
    let digits = unsigned_part(s);
    let magnitude = digits_value(digits);
    let number = if has_sign(s) && s[0] == '-' {
        -magnitude
    } else {
        magnitude
    };
    if digits.len() > 0 && all_digits(digits) && i64::MIN <= number <= i64::MAX {
        Some(number as i64)
    } else {
        None
    }
}

/// A run of digits writes no smaller a number than any beginning of it.
proof fn lemma_digits_grow(s: Seq<char>, k: int)
    requires
        all_digits(s),
        0 <= k <= s.len(),
    ensures
        0 <= digits_value(s.take(k)) <= digits_value(s),
    decreases s.len() - k,
{
    if k == s.len() {
        assert(s.take(k) =~= s);
        lemma_digits_nonnegative(s);
    } else {
        lemma_digits_grow(s, k + 1);
        assert(s.take(k + 1).drop_last() =~= s.take(k));
        lemma_digits_nonnegative(s.take(k));
    }
}

proof fn lemma_digits_nonnegative(s: Seq<char>)
    requires
        all_digits(s),
    ensures
        0 <= digits_value(s),
    decreases s.len(),
{
    if s.len() > 0 {
        lemma_digits_nonnegative(s.drop_last());
    }
}

/// Reads `chars` as a 64-bit signed integer, the way `str::parse` does.
pub fn parse_integer(chars: &Vec<char>) -> (number: Option<i64>)
    ensures
        number == integer_literal(chars@),
{
    let length = chars.len();
    let negative = length > 0 && chars[0] == '-';
    let start: usize = if length > 0 && (chars[0] == '-' || chars[0] == '+') {
        1
    } else {
        0
    };
    if start == length {
        return None;
    }
    let ghost digits = unsigned_part(chars@);
    let limit: u128 = if negative {
        9223372036854775808
    } else {
        9223372036854775807
    };
    let mut magnitude: u128 = 0;
    let mut i: usize = start;
    while i < length
        invariant
            start <= i <= length == chars.len(),
            digits == unsigned_part(chars@),
            digits == chars@.subrange(start as int, length as int),
            negative == (has_sign(chars@) && chars@[0] == '-'),
            limit == if negative {
                9223372036854775808u128
            } else {
                9223372036854775807u128
            },
            all_digits(digits.take(i - start)),
            magnitude == digits_value(digits.take(i - start)),
            magnitude <= limit <= 9223372036854775808,
        decreases length - i,
    {
        let c = chars[i];
        if !is_digit(c) {
            assert(!spec_is_digit(digits[i - start]));
            return None;
        }
        let digit: u128 = (c as u8 - '0' as u8) as u128;
        let next: u128 = magnitude * 10 + digit;
        proof {
            assert(digits.take(i - start + 1).drop_last() =~= digits.take(i - start));
            assert(digits.take(i - start + 1).last() == c);
            if all_digits(digits) {
                lemma_digits_grow(digits, i - start + 1);
            }
        }
        if next > limit {
            return None;
        }
        magnitude = next;
        i += 1;
    }
    assert(digits.take(length - start) =~= digits);
    if negative {
        if magnitude == 9223372036854775808 {
            Some(i64::MIN)
        } else {
            Some(-(magnitude as i64))
        }
    } else {
        Some(magnitude as i64)
    }
}

/// Where the zeros end that stand from `i` on and have a digit behind them:
/// zeros that add nothing to the number.
pub open spec fn zeros_end(s: Seq<char>, i: int) -> int
    decreases s.len() - i,
{
    if 0 <= i && i + 1 < s.len() && s[i] == '0' && spec_is_digit(s[i + 1]) {
        zeros_end(s, i + 1)
    } else {
        i
    }
}

/// How many characters the minus sign at the front of `s` takes: one, or
/// none where there is no such sign.
pub open spec fn sign_len(s: Seq<char>) -> int {
    if s.len() > 0 && s[0] == '-' {
        1
    } else {
        0
    }
}

/// The text of a number without the zeros at the front of its whole part
/// that add nothing: `007.50` becomes `7.50`, `-00.5` becomes `-0.5`, and
/// `0.5` stays as it is. A minus sign stays. The number written is the same.
pub open spec fn without_leading_zeros(s: Seq<char>) -> Seq<char> {
    s.subrange(0, sign_len(s)) + s.subrange(zeros_end(s, sign_len(s)), s.len() as int)
}

/// The zeros that add nothing end between where they began and the end of
/// the text.
pub proof fn lemma_zeros_end(s: Seq<char>, i: int)
    requires
        0 <= i <= s.len(),
    ensures
        i <= zeros_end(s, i) <= s.len(),
    decreases s.len() - i,
{
    if i + 1 < s.len() && s[i] == '0' && spec_is_digit(s[i + 1]) {
        lemma_zeros_end(s, i + 1);
    }
}

/// The text of a number without the zeros at the front of its whole part
/// that add nothing.
pub fn trim_leading_zeros(chars: &Vec<char>) -> (text: String)
    ensures
        text@ == without_leading_zeros(chars@),
{
    let length = chars.len();
    let mut text = String::new();
    let mut start: usize = 0;
    if length > 0 && chars[0] == '-' {
        text.push('-');
        start = 1;
    }
    let ghost sign = start;
    while length - start > 1 && chars[start] == '0' && is_digit(chars[start + 1])
        invariant
            sign <= start <= length == chars.len(),
            zeros_end(chars@, sign as int) == zeros_end(chars@, start as int),
        decreases length - start,
    {
        start += 1;
    }
    let ghost front = text@;
    let mut i: usize = start;
    while i < length
        invariant
            start <= i <= length == chars.len(),
            text@ == front + chars@.subrange(start as int, i as int),
        decreases length - i,
    {
        text.push(chars[i]);
        i += 1;
    }
    text
}

} // verus!
