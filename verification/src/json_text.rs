//! What JSON text is: the grammar, as positions in a text.

use vstd::prelude::*;
use crate::chars::{characters, is_digit, spec_is_digit};

verus! {

/// White space as JSON text may hold it between its tokens: space, tab, line
/// feed and carriage return.
pub open spec fn is_blank(c: char) -> bool {
    c == ' ' || c == '\t' || c == '\n' || c == '\r'
}

/// A digit of base sixteen.
pub open spec fn is_hex_digit(c: char) -> bool {
    spec_is_digit(c) || ('a' <= c <= 'f') || ('A' <= c <= 'F')
}

/// A character that, behind a backslash, is an escape by itself.
pub open spec fn is_escape(c: char) -> bool {
    c == '"' || c == '\\' || c == '/' || c == 'b' || c == 'f' || c == 'n' || c == 'r' || c == 't'
}

/// Whether `c` stands at position `i` of `s`.
pub open spec fn char_at(s: Seq<char>, i: int, c: char) -> bool {
    0 <= i < s.len() && s[i] == c
}

/// Whether a digit stands at position `i` of `s`.
pub open spec fn digit_at(s: Seq<char>, i: int) -> bool {
    0 <= i < s.len() && spec_is_digit(s[i])
}

/// Whether `word` stands at position `i` of `s`.
pub open spec fn word_at(s: Seq<char>, i: int, word: Seq<char>) -> bool {
    0 <= i && i + word.len() <= s.len() && s.subrange(i, i + word.len()) == word
}

/// How many characters of `s` stand at `i` and after it.
pub open spec fn left(s: Seq<char>, i: int) -> nat {
    if 0 <= i < s.len() {
        (s.len() - i) as nat
    } else {
        0
    }
}

/// The first position from `i` on at which no white space stands.
pub open spec fn after_blanks(s: Seq<char>, i: int) -> int
    decreases left(s, i),
{
    if 0 <= i < s.len() && is_blank(s[i]) {
        after_blanks(s, i + 1)
    } else {
        i
    }
}

/// The first position from `i` on at which no digit stands.
pub open spec fn after_digits(s: Seq<char>, i: int) -> int
    decreases left(s, i),
{
    if digit_at(s, i) {
        after_digits(s, i + 1)
    } else {
        i
    }
}

/// Where a string ends whose opening quote stands before `i`: behind its
/// closing quote. Between the quotes stand characters from the space on, but
/// no quote and no backslash by itself, and escapes: a backslash with one of
/// `" \ / b f n r t`, or with `u` and four digits of base sixteen.
pub open spec fn string_end(s: Seq<char>, i: int) -> Option<int>
    decreases left(s, i),
{
    if i < 0 || i >= s.len() {
        None
    } else if s[i] == '"' {
        Some(i + 1)
    } else if s[i] == '\\' {
        if i + 1 < s.len() && is_escape(s[i + 1]) {
            string_end(s, i + 2)
        } else if i + 5 < s.len() && s[i + 1] == 'u' && is_hex_digit(s[i + 2]) && is_hex_digit(
            s[i + 3],
        ) && is_hex_digit(s[i + 4]) && is_hex_digit(s[i + 5]) {
            string_end(s, i + 6)
        } else {
            None
        }
    } else if ' ' <= s[i] {
        string_end(s, i + 1)
    } else {
        None
    }
}

/// Where the number ends that begins at `i`: an optional minus sign; then a
/// zero, or digits that begin with another digit; then, if there is one, a
/// fraction, a dot and digits; then, if there is one, an exponent, `e` or
/// `E` with an optional sign and digits.
pub open spec fn number_end(s: Seq<char>, i: int) -> Option<int> {
    let whole = if char_at(s, i, '-') {
        i + 1
    } else {
        i
    };
    let fraction = if char_at(s, whole, '0') {
        whole + 1
    } else {
        after_digits(s, whole)
    };
    let exponent = if char_at(s, fraction, '.') {
        after_digits(s, fraction + 1)
    } else {
        fraction
    };
    let power = if char_at(s, exponent + 1, '+') || char_at(s, exponent + 1, '-') {
        exponent + 2
    } else {
        exponent + 1
    };
    if !digit_at(s, whole) {
        None
    } else if char_at(s, fraction, '.') && !digit_at(s, fraction + 1) {
        None
    } else if char_at(s, exponent, 'e') || char_at(s, exponent, 'E') {
        if digit_at(s, power) {
            Some(after_digits(s, power))
        } else {
            None
        }
    } else {
        Some(exponent)
    }
}

/// Where the value ends that begins at `i`: an object, an array, a string,
/// one of `true`, `false` and `null`, or a number.
pub open spec fn value_end(s: Seq<char>, i: int) -> Option<int>
    decreases left(s, i), 0int,
{
    if i < 0 || i >= s.len() {
        None
    } else if s[i] == '{' {
        let first = after_blanks(s, i + 1);
        proof {
            lemma_after_blanks(s, i + 1);
        }
        if char_at(s, first, '}') {
            Some(first + 1)
        } else {
            members_end(s, first)
        }
    } else if s[i] == '[' {
        let first = after_blanks(s, i + 1);
        proof {
            lemma_after_blanks(s, i + 1);
        }
        if char_at(s, first, ']') {
            Some(first + 1)
        } else {
            elements_end(s, first)
        }
    } else if s[i] == '"' {
        string_end(s, i + 1)
    } else if word_at(s, i, "true"@) {
        Some(i + 4)
    } else if word_at(s, i, "false"@) {
        Some(i + 5)
    } else if word_at(s, i, "null"@) {
        Some(i + 4)
    } else {
        number_end(s, i)
    }
}

/// Where an array ends of which an element begins at `i`: elements with a
/// comma between each two, then the closing bracket. (That an element ends
/// behind where it began is asked only so that the reading can be seen to
/// end; it always does.)
pub open spec fn elements_end(s: Seq<char>, i: int) -> Option<int>
    decreases left(s, i), 1int,
{
    match value_end(s, i) {
        Some(end) => {
            let next = after_blanks(s, end);
            proof {
                lemma_after_blanks(s, end);
                lemma_after_blanks(s, next + 1);
            }
            if i < 0 || end <= i {
                None
            } else if char_at(s, next, ',') {
                elements_end(s, after_blanks(s, next + 1))
            } else if char_at(s, next, ']') {
                Some(next + 1)
            } else {
                None
            }
        },
        None => None,
    }
}

/// Where an object ends of which a member begins at `i`: members with a comma
/// between each two, then the closing brace. A member is a string, a colon
/// and a value. (That a value ends behind where it began is asked only so
/// that the reading can be seen to end; it always does.)
pub open spec fn members_end(s: Seq<char>, i: int) -> Option<int>
    decreases left(s, i), 1int,
{
    if !char_at(s, i, '"') {
        None
    } else {
        match string_end(s, i + 1) {
            Some(key_end) => {
                let colon = after_blanks(s, key_end);
                let begin = after_blanks(s, colon + 1);
                proof {
                    lemma_string_end(s, i + 1);
                    lemma_after_blanks(s, key_end);
                    lemma_after_blanks(s, colon + 1);
                }
                if !char_at(s, colon, ':') {
                    None
                } else {
                    match value_end(s, begin) {
                        Some(end) => {
                            let next = after_blanks(s, end);
                            proof {
                                lemma_after_blanks(s, end);
                                lemma_after_blanks(s, next + 1);
                            }
                            if end <= begin {
                                None
                            } else if char_at(s, next, ',') {
                                members_end(s, after_blanks(s, next + 1))
                            } else if char_at(s, next, '}') {
                                Some(next + 1)
                            } else {
                                None
                            }
                        },
                        None => None,
                    }
                }
            },
            None => None,
        }
    }
}

/// Whether `s` is JSON text: one value, with nothing but white space before
/// and after it.
pub open spec fn is_json_text(s: Seq<char>) -> bool {
    value_end(s, after_blanks(s, 0)) matches Some(end) && after_blanks(s, end) == s.len()
}

/// White space is passed over forwards.
pub proof fn lemma_after_blanks(s: Seq<char>, i: int)
    ensures
        i <= after_blanks(s, i),
        0 <= i <= s.len() ==> after_blanks(s, i) <= s.len(),
    decreases left(s, i),
{
    if 0 <= i < s.len() && is_blank(s[i]) {
        lemma_after_blanks(s, i + 1);
    }
}

/// A string ends behind where it began.
pub proof fn lemma_string_end(s: Seq<char>, i: int)
    ensures
        string_end(s, i) matches Some(end) ==> i < end <= s.len(),
    decreases left(s, i),
{
    if 0 <= i < s.len() {
        if s[i] == '\\' {
            lemma_string_end(s, i + 2);
            lemma_string_end(s, i + 6);
        } else {
            lemma_string_end(s, i + 1);
        }
    }
}

/// A value ends behind where it began, and within the text.
pub proof fn lemma_value_end(s: Seq<char>, i: int)
    ensures
        value_end(s, i) matches Some(end) ==> i < end <= s.len(),
    decreases left(s, i), 0int,
{
    reveal_strlit("true");
    reveal_strlit("false");
    reveal_strlit("null");
    if 0 <= i < s.len() {
        if s[i] == '{' {
            lemma_after_blanks(s, i + 1);
            lemma_members_end(s, after_blanks(s, i + 1));
        } else if s[i] == '[' {
            lemma_after_blanks(s, i + 1);
            lemma_elements_end(s, after_blanks(s, i + 1));
        } else if s[i] == '"' {
            lemma_string_end(s, i + 1);
        } else {
            lemma_number_end(s, i);
        }
    }
}

proof fn lemma_number_end(s: Seq<char>, i: int)
    requires
        0 <= i < s.len(),
    ensures
        number_end(s, i) matches Some(end) ==> i < end <= s.len(),
{
    let whole = if char_at(s, i, '-') {
        i + 1
    } else {
        i
    };
    lemma_after_digits(s, whole);
    lemma_after_digits(s, whole + 1);
    let fraction = if char_at(s, whole, '0') {
        whole + 1
    } else {
        after_digits(s, whole)
    };
    lemma_after_digits(s, fraction + 1);
    let exponent = if char_at(s, fraction, '.') {
        after_digits(s, fraction + 1)
    } else {
        fraction
    };
    lemma_after_digits(s, exponent + 1);
    lemma_after_digits(s, exponent + 2);
}

proof fn lemma_elements_end(s: Seq<char>, i: int)
    requires
        0 <= i <= s.len(),
    ensures
        elements_end(s, i) matches Some(end) ==> i < end <= s.len(),
    decreases left(s, i), 1int,
{
    lemma_value_end(s, i);
    if let Some(end) = value_end(s, i) {
        let next = after_blanks(s, end);
        lemma_after_blanks(s, end);
        lemma_after_blanks(s, next + 1);
        if char_at(s, next, ',') {
            lemma_elements_end(s, after_blanks(s, next + 1));
        }
    }
}

proof fn lemma_members_end(s: Seq<char>, i: int)
    requires
        0 <= i <= s.len(),
    ensures
        members_end(s, i) matches Some(end) ==> i < end <= s.len(),
    decreases left(s, i), 1int,
{
    if char_at(s, i, '"') {
        lemma_string_end(s, i + 1);
        if let Some(key_end) = string_end(s, i + 1) {
            let colon = after_blanks(s, key_end);
            let begin = after_blanks(s, colon + 1);
            lemma_after_blanks(s, key_end);
            lemma_after_blanks(s, colon + 1);
            if char_at(s, colon, ':') {
                lemma_value_end(s, begin);
                if let Some(end) = value_end(s, begin) {
                    let next = after_blanks(s, end);
                    lemma_after_blanks(s, end);
                    lemma_after_blanks(s, next + 1);
                    if char_at(s, next, ',') {
                        lemma_members_end(s, after_blanks(s, next + 1));
                    }
                }
            }
        }
    }
}

/// `null` is JSON text.
pub proof fn lemma_null_is_json()
    ensures
        is_json_text("null"@),
{
    reveal_strlit("null");
    reveal_strlit("true");
    reveal_strlit("false");
    let s = "null"@;
    assert(s.subrange(0, 4) =~= s);
}

/// Digits are passed over forwards.
pub proof fn lemma_after_digits(s: Seq<char>, i: int)
    ensures
        i <= after_digits(s, i),
        0 <= i <= s.len() ==> after_digits(s, i) <= s.len(),
    decreases left(s, i),
{
    if digit_at(s, i) {
        lemma_after_digits(s, i + 1);
    }
}

/// Whether `text` is JSON text.
pub fn is_json(text: &str) -> (valid: bool)
    ensures
        valid == is_json_text(text@),
{
    let chars = characters(text);
    let begin = skip_blanks(&chars, 0);
    match scan_value(&chars, begin) {
        Some(end) => skip_blanks(&chars, end) == chars.len(),
        None => false,
    }
}

/// The first position from `start` on at which no white space stands.
fn skip_blanks(chars: &Vec<char>, start: usize) -> (end: usize)
    requires
        start <= chars.len(),
    ensures
        end == after_blanks(chars@, start as int),
        start <= end <= chars.len(),
{
    let mut i: usize = start;
    while i < chars.len() && (chars[i] == ' ' || chars[i] == '\t' || chars[i] == '\n' || chars[i]
        == '\r')
        invariant
            start <= i <= chars.len(),
            after_blanks(chars@, start as int) == after_blanks(chars@, i as int),
        decreases chars.len() - i,
    {
        i += 1;
    }
    i
}

/// The first position from `start` on at which no digit stands.
fn skip_digits(chars: &Vec<char>, start: usize) -> (end: usize)
    requires
        start <= chars.len(),
    ensures
        end == after_digits(chars@, start as int),
        start <= end <= chars.len(),
{
    let mut i: usize = start;
    while i < chars.len() && is_digit(chars[i])
        invariant
            start <= i <= chars.len(),
            after_digits(chars@, start as int) == after_digits(chars@, i as int),
        decreases chars.len() - i,
    {
        i += 1;
    }
    i
}

/// Whether `c` stands at position `i`.
fn holds(chars: &Vec<char>, i: usize, c: char) -> (found: bool)
    ensures
        found == char_at(chars@, i as int, c),
{
    i < chars.len() && chars[i] == c
}

/// Whether a digit stands at position `i`.
fn holds_digit(chars: &Vec<char>, i: usize) -> (found: bool)
    ensures
        found == digit_at(chars@, i as int),
{
    i < chars.len() && is_digit(chars[i])
}

/// Whether `word` stands at position `start`.
fn holds_word(chars: &Vec<char>, start: usize, word: &str) -> (found: bool)
    requires
        start <= chars.len(),
    ensures
        found == word_at(chars@, start as int, word@),
{
    let length = word.unicode_len();
    if length > chars.len() - start {
        return false;
    }
    let mut k: usize = 0;
    while k < length
        invariant
            k <= length == word@.len(),
            start + length <= chars.len(),
            forall|j: int| 0 <= j < k ==> chars@[start + j] == word@[j],
        decreases length - k,
    {
        if chars[start + k] != word.get_char(k) {
            return false;
        }
        k += 1;
    }
    assert(chars@.subrange(start as int, start + length) =~= word@);
    true
}

fn is_hex(c: char) -> (hex: bool)
    ensures
        hex == is_hex_digit(c),
{
    is_digit(c) || ('a' <= c && c <= 'f') || ('A' <= c && c <= 'F')
}

/// Where the string ends whose opening quote stands before `start`.
fn scan_string(chars: &Vec<char>, start: usize) -> (end: Option<usize>)
    requires
        start <= chars.len(),
    ensures
        match end {
            Some(end) => string_end(chars@, start as int) == Some(end as int) && start < end
                <= chars.len(),
            None => string_end(chars@, start as int) is None,
        },
{
    let length = chars.len();
    let mut i: usize = start;
    while i < length
        invariant
            start <= i <= length == chars.len(),
            string_end(chars@, start as int) == string_end(chars@, i as int),
        decreases length - i,
    {
        let c = chars[i];
        if c == '"' {
            return Some(i + 1);
        } else if c == '\\' {
            if i + 1 < length && (chars[i + 1] == '"' || chars[i + 1] == '\\' || chars[i + 1]
                == '/' || chars[i + 1] == 'b' || chars[i + 1] == 'f' || chars[i + 1] == 'n'
                || chars[i + 1] == 'r' || chars[i + 1] == 't') {
                i += 2;
            } else if length - i > 5 && chars[i + 1] == 'u' && is_hex(chars[i + 2]) && is_hex(
                chars[i + 3],
            ) && is_hex(chars[i + 4]) && is_hex(chars[i + 5]) {
                i += 6;
            } else {
                return None;
            }
        } else if ' ' <= c {
            i += 1;
        } else {
            return None;
        }
    }
    None
}

/// Where the number ends that begins at `start`.
fn scan_number(chars: &Vec<char>, start: usize) -> (end: Option<usize>)
    requires
        start < chars.len(),
    ensures
        match end {
            Some(end) => number_end(chars@, start as int) == Some(end as int) && start < end
                <= chars.len(),
            None => number_end(chars@, start as int) is None,
        },
{
    let whole = if holds(chars, start, '-') {
        start + 1
    } else {
        start
    };
    if !holds_digit(chars, whole) {
        return None;
    }
    let fraction = if holds(chars, whole, '0') {
        whole + 1
    } else {
        skip_digits(chars, whole)
    };
    proof {
        lemma_after_digits(chars@, whole + 1);
    }
    let exponent = if holds(chars, fraction, '.') {
        if !holds_digit(chars, fraction + 1) {
            return None;
        }
        skip_digits(chars, fraction + 1)
    } else {
        fraction
    };
    if holds(chars, exponent, 'e') || holds(chars, exponent, 'E') {
        let power = if holds(chars, exponent + 1, '+') || holds(chars, exponent + 1, '-') {
            exponent + 2
        } else {
            exponent + 1
        };
        if holds_digit(chars, power) {
            Some(skip_digits(chars, power))
        } else {
            None
        }
    } else {
        Some(exponent)
    }
}

/// Where the value ends that begins at `start`.
fn scan_value(chars: &Vec<char>, start: usize) -> (end: Option<usize>)
    requires
        start <= chars.len(),
    ensures
        match end {
            Some(end) => value_end(chars@, start as int) == Some(end as int) && start < end
                <= chars.len(),
            None => value_end(chars@, start as int) is None,
        },
    decreases left(chars@, start as int), 0int,
{
    if start >= chars.len() {
        return None;
    }
    let c = chars[start];
    if c == '{' {
        let first = skip_blanks(chars, start + 1);
        if holds(chars, first, '}') {
            Some(first + 1)
        } else {
            scan_members(chars, first)
        }
    } else if c == '[' {
        let first = skip_blanks(chars, start + 1);
        if holds(chars, first, ']') {
            Some(first + 1)
        } else {
            scan_elements(chars, first)
        }
    } else if c == '"' {
        scan_string(chars, start + 1)
    } else if holds_word(chars, start, "true") {
        proof {
            reveal_strlit("true");
        }
        Some(start + 4)
    } else if holds_word(chars, start, "false") {
        proof {
            reveal_strlit("false");
        }
        Some(start + 5)
    } else if holds_word(chars, start, "null") {
        proof {
            reveal_strlit("null");
        }
        Some(start + 4)
    } else {
        scan_number(chars, start)
    }
}

/// Where the array ends of which an element begins at `start`.
fn scan_elements(chars: &Vec<char>, start: usize) -> (end: Option<usize>)
    requires
        start <= chars.len(),
    ensures
        match end {
            Some(end) => elements_end(chars@, start as int) == Some(end as int) && start < end
                <= chars.len(),
            None => elements_end(chars@, start as int) is None,
        },
    decreases left(chars@, start as int), 1int,
{
    let mut i: usize = start;
    loop
        invariant
            start <= i <= chars.len(),
            elements_end(chars@, start as int) == elements_end(chars@, i as int),
        decreases chars.len() - i,
    {
        let end = match scan_value(chars, i) {
            Some(end) => end,
            None => {
                return None;
            },
        };
        let next = skip_blanks(chars, end);
        if holds(chars, next, ',') {
            i = skip_blanks(chars, next + 1);
        } else if holds(chars, next, ']') {
            return Some(next + 1);
        } else {
            return None;
        }
    }
}

/// Where the object ends of which a member begins at `start`.
fn scan_members(chars: &Vec<char>, start: usize) -> (end: Option<usize>)
    requires
        start <= chars.len(),
    ensures
        match end {
            Some(end) => members_end(chars@, start as int) == Some(end as int) && start < end
                <= chars.len(),
            None => members_end(chars@, start as int) is None,
        },
    decreases left(chars@, start as int), 1int,
{
    let mut i: usize = start;
    loop
        invariant
            start <= i <= chars.len(),
            members_end(chars@, start as int) == members_end(chars@, i as int),
        decreases chars.len() - i,
    {
        if !holds(chars, i, '"') {
            return None;
        }
        let key_end = match scan_string(chars, i + 1) {
            Some(end) => end,
            None => {
                return None;
            },
        };
        let colon = skip_blanks(chars, key_end);
        if !holds(chars, colon, ':') {
            return None;
        }
        let begin = skip_blanks(chars, colon + 1);
        let end = match scan_value(chars, begin) {
            Some(end) => end,
            None => {
                return None;
            },
        };
        let next = skip_blanks(chars, end);
        if holds(chars, next, ',') {
            i = skip_blanks(chars, next + 1);
        } else if holds(chars, next, '}') {
            return Some(next + 1);
        } else {
            return None;
        }
    }
}

} // verus!
