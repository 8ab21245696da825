//! The forgiving parser: tokens in, a value tree out, never a failure.

use vstd::prelude::*;
use crate::chars::characters;
use crate::json::{
    json_array, json_bool, json_integer, json_model, json_null, json_number, json_object,
    json_string, keys_apart, lemma_put_apart, map_insert, map_members, members_apart, models,
    new_map, number_literal, put, Json, JsonNumber,
};
use crate::number::{
    integer_literal, parse_integer, trim_leading_zeros, without_leading_zeros,
};
use crate::token::{token_text, views, Token, TokenKind, TokenView};

verus! {

/// Whether a token of `kind` begins a value.
pub open spec fn starts_value(kind: TokenKind) -> bool {
    kind == TokenKind::LBrace || kind == TokenKind::LBracket || kind == TokenKind::String || kind
        == TokenKind::Number || kind == TokenKind::True || kind == TokenKind::False || kind
        == TokenKind::Null
}

/// Whether a token of `kind` ends what encloses it, so that no value is read
/// past it.
pub open spec fn ends_value(kind: TokenKind) -> bool {
    kind == TokenKind::RBrace || kind == TokenKind::RBracket || kind == TokenKind::Eof
}

/// Whether `text` has a mark of a fraction or an exponent.
pub open spec fn has_float_mark(text: Seq<char>) -> bool {
    exists|k: int| 0 <= k < text.len() && is_float_mark(#[trigger] text[k])
}

/// `.`, `e` or `E`.
pub open spec fn is_float_mark(c: char) -> bool {
    c == '.' || c == 'e' || c == 'E'
}

/// The text of a number token; one without text counts as `0`.
pub open spec fn number_text(token: TokenView) -> Seq<char> {
    match token.value {
        Some(text) => text,
        None => seq!['0'],
    }
}

/// The number that the text of a number token writes, if it writes one.
/// Text with a mark of a fraction or an exponent is the number that
/// `serde_json` reads it as, once zeros that add nothing are gone from the
/// front of its whole part; other text is the 64-bit integer it writes.
pub open spec fn number_read(text: Seq<char>) -> Option<JsonNumber> {
    if has_float_mark(text) {
        number_literal(without_leading_zeros(text))
    } else {
        match integer_literal(text) {
            Some(number) => Some(JsonNumber::Integer(number as int)),
            None => None,
        }
    }
}

/// The value that stands for the text of a number, given the number that
/// was read from it, if one was: that number, or else the text as a string.
pub open spec fn number_or_string(text: Seq<char>, number: Option<JsonNumber>) -> Json {
    match number {
        Some(number) => Json::Number(number),
        None => Json::String(text),
    }
}

/// The value of a number token: the number that its text writes, or its text
/// as a string where it writes none, as where the number is out of range.
pub open spec fn number_value(token: TokenView) -> Json {
    number_or_string(number_text(token), number_read(number_text(token)))
}

/// The value of a token that is a value by itself.
pub open spec fn scalar(token: TokenView) -> Json {
    match token.kind {
        TokenKind::String => Json::String(token_text(token)),
        TokenKind::Number => number_value(token),
        TokenKind::True => Json::Bool(true),
        TokenKind::False => Json::Bool(false),
        _ => Json::Null,
    }
}

/// What reading a value at some position gives: the value, if there is one,
/// and how many tokens went into it.
pub struct Parsed {
    pub value: Option<Json>,
    pub used: nat,
}

/// What reading an object or an array gives: the value and how many tokens
/// went into it.
pub struct Built {
    pub value: Json,
    pub used: nat,
}

/// How many tokens stand at `idx` and after it.
pub open spec fn remaining(tokens: Seq<TokenView>, idx: int) -> nat {
    if 0 <= idx < tokens.len() {
        (tokens.len() - idx) as nat
    } else {
        0
    }
}

/// `built`, after `more` tokens were used before it.
pub open spec fn later(built: Built, more: nat) -> Built {
    Built { value: built.value, used: built.used + more }
}

/// The value that the token at `idx` begins, a token that begins one, and
/// how many tokens it takes after that token.
pub open spec fn parsed_started(tokens: Seq<TokenView>, idx: int) -> Built
    decreases remaining(tokens, idx), 0int,
{
    if 0 <= idx < tokens.len() {
        match tokens[idx].kind {
            TokenKind::LBrace => parsed_object(tokens, idx + 1, Seq::empty()),
            TokenKind::LBracket => parsed_array(tokens, idx + 1, false, Seq::empty()),
            _ => Built { value: scalar(tokens[idx]), used: 0 },
        }
    } else {
        Built { value: Json::Null, used: 0 }
    }
}

/// What reading a value at `idx` gives.
///
/// A token that begins a value gives that value. A closer or the end marker
/// gives none and is left where it is. Any other token gives none and is
/// passed over. Past the last token there is nothing.
pub open spec fn parsed_value(tokens: Seq<TokenView>, idx: int) -> Parsed
    decreases remaining(tokens, idx), 1int,
{
    if 0 <= idx < tokens.len() {
        let kind = tokens[idx].kind;
        if starts_value(kind) {
            let inner = parsed_started(tokens, idx);
            Parsed { value: Some(inner.value), used: 1 + inner.used }
        } else if ends_value(kind) {
            Parsed { value: None, used: 0 }
        } else {
            Parsed { value: None, used: 1 }
        }
    } else {
        Parsed { value: None, used: 0 }
    }
}

/// The object whose members are read from `idx` on, `members` having been
/// read before.
///
/// A closing brace or the end marker ends the object and is taken. A string
/// is a key: behind a colon its value is read, and without a value there the
/// key is left out; a key that no colon follows gets null. A key that comes
/// again keeps its place and gets the new value. Any other token is passed
/// over, so commas may be missing, doubled or trailing. The object also ends
/// where the tokens do.
pub open spec fn parsed_object(
    tokens: Seq<TokenView>,
    idx: int,
    members: Seq<(Seq<char>, Json)>,
) -> Built
    decreases remaining(tokens, idx), 1int,
{
    if 0 <= idx < tokens.len() {
        let token = tokens[idx];
        if token.kind == TokenKind::RBrace || token.kind == TokenKind::Eof {
            Built { value: Json::Object(members), used: 1 }
        } else if token.kind == TokenKind::String {
            let key = token_text(token);
            if idx + 1 < tokens.len() && tokens[idx + 1].kind == TokenKind::Colon {
                let inner = parsed_value(tokens, idx + 2);
                let members = match inner.value {
                    Some(value) => put(members, key, value),
                    None => members,
                };
                later(parsed_object(tokens, idx + 2 + inner.used, members), 2 + inner.used)
            } else {
                later(parsed_object(tokens, idx + 1, put(members, key, Json::Null)), 1)
            }
        } else {
            later(parsed_object(tokens, idx + 1, members), 1)
        }
    } else {
        Built { value: Json::Object(members), used: 0 }
    }
}

/// The array whose elements are read from `idx` on, `items` having been read
/// before; `after_element` says that an element was the last thing read.
///
/// A closing bracket or the end marker ends the array and is taken. A comma
/// behind an element is passed over. A token that begins a value gives the
/// next element, with or without a comma before it. Behind an element, where
/// a comma is due, a token that is none of these and no closing brace is
/// passed over, and a comma is still due. At any other token the array ends,
/// and that token is left where it is: at the start and behind a comma this
/// is any token that begins no value, behind an element it is a closing
/// brace. The array also ends where the tokens do.
pub open spec fn parsed_array(
    tokens: Seq<TokenView>,
    idx: int,
    after_element: bool,
    items: Seq<Json>,
) -> Built
    decreases remaining(tokens, idx), 1int,
{
    if 0 <= idx < tokens.len() {
        let kind = tokens[idx].kind;
        if kind == TokenKind::RBracket || kind == TokenKind::Eof {
            Built { value: Json::Array(items), used: 1 }
        } else if after_element && kind == TokenKind::Comma {
            later(parsed_array(tokens, idx + 1, false, items), 1)
        } else if starts_value(kind) {
            let inner = parsed_started(tokens, idx);
            later(
                parsed_array(tokens, idx + 1 + inner.used, true, items.push(inner.value)),
                1 + inner.used,
            )
        } else if after_element && kind != TokenKind::RBrace {
            later(parsed_array(tokens, idx + 1, true, items), 1)
        } else {
            Built { value: Json::Array(items), used: 0 }
        }
    } else {
        Built { value: Json::Array(items), used: 0 }
    }
}

/// Reading never runs past the tokens.
pub proof fn lemma_parsed_bounds(tokens: Seq<TokenView>, idx: int)
    requires
        0 <= idx <= tokens.len(),
    ensures
        idx + parsed_value(tokens, idx).used <= tokens.len(),
    decreases remaining(tokens, idx), 1int,
{
    if idx < tokens.len() && starts_value(tokens[idx].kind) {
        lemma_started_bounds(tokens, idx);
    }
}

proof fn lemma_started_bounds(tokens: Seq<TokenView>, idx: int)
    requires
        0 <= idx < tokens.len(),
    ensures
        idx + 1 + parsed_started(tokens, idx).used <= tokens.len(),
    decreases remaining(tokens, idx), 0int,
{
    match tokens[idx].kind {
        TokenKind::LBrace => {
            lemma_object_bounds(tokens, idx + 1, Seq::empty());
        },
        TokenKind::LBracket => {
            lemma_array_bounds(tokens, idx + 1, false, Seq::empty());
        },
        _ => {},
    }
}

proof fn lemma_object_bounds(tokens: Seq<TokenView>, idx: int, members: Seq<(Seq<char>, Json)>)
    requires
        0 <= idx <= tokens.len(),
    ensures
        idx + parsed_object(tokens, idx, members).used <= tokens.len(),
    decreases remaining(tokens, idx), 1int,
{
    if idx < tokens.len() {
        let token = tokens[idx];
        if token.kind == TokenKind::RBrace || token.kind == TokenKind::Eof {
        } else if token.kind == TokenKind::String {
            let key = token_text(token);
            if idx + 1 < tokens.len() && tokens[idx + 1].kind == TokenKind::Colon {
                lemma_parsed_bounds(tokens, idx + 2);
                let inner = parsed_value(tokens, idx + 2);
                let next = match inner.value {
                    Some(value) => put(members, key, value),
                    None => members,
                };
                lemma_object_bounds(tokens, idx + 2 + inner.used, next);
            } else {
                lemma_object_bounds(tokens, idx + 1, put(members, key, Json::Null));
            }
        } else {
            lemma_object_bounds(tokens, idx + 1, members);
        }
    }
}

proof fn lemma_array_bounds(
    tokens: Seq<TokenView>,
    idx: int,
    after_element: bool,
    items: Seq<Json>,
)
    requires
        0 <= idx <= tokens.len(),
    ensures
        idx + parsed_array(tokens, idx, after_element, items).used <= tokens.len(),
    decreases remaining(tokens, idx), 1int,
{
    if idx < tokens.len() {
        let kind = tokens[idx].kind;
        if kind == TokenKind::RBracket || kind == TokenKind::Eof {
        } else if after_element && kind == TokenKind::Comma {
            lemma_array_bounds(tokens, idx + 1, false, items);
        } else if starts_value(kind) {
            lemma_started_bounds(tokens, idx);
            let inner = parsed_started(tokens, idx);
            lemma_array_bounds(tokens, idx + 1 + inner.used, true, items.push(inner.value));
        } else if after_element && kind != TokenKind::RBrace {
            lemma_array_bounds(tokens, idx + 1, true, items);
        }
    }
}

/// No object that the parser reads holds a key twice.
pub proof fn lemma_parsed_apart(tokens: Seq<TokenView>, idx: int)
    ensures
        parsed_value(tokens, idx).value matches Some(tree) ==> keys_apart(tree),
    decreases remaining(tokens, idx), 1int,
{
    if 0 <= idx < tokens.len() && starts_value(tokens[idx].kind) {
        lemma_started_apart(tokens, idx);
    }
}

proof fn lemma_started_apart(tokens: Seq<TokenView>, idx: int)
    ensures
        keys_apart(parsed_started(tokens, idx).value),
    decreases remaining(tokens, idx), 0int,
{
    if 0 <= idx < tokens.len() {
        match tokens[idx].kind {
            TokenKind::LBrace => {
                lemma_object_apart(tokens, idx + 1, Seq::empty());
            },
            TokenKind::LBracket => {
                lemma_array_apart(tokens, idx + 1, false, Seq::empty());
            },
            _ => {},
        }
    }
}

proof fn lemma_object_apart(tokens: Seq<TokenView>, idx: int, members: Seq<(Seq<char>, Json)>)
    requires
        members_apart(members),
    ensures
        keys_apart(parsed_object(tokens, idx, members).value),
    decreases remaining(tokens, idx), 1int,
{
    if 0 <= idx < tokens.len() {
        let token = tokens[idx];
        if token.kind == TokenKind::RBrace || token.kind == TokenKind::Eof {
        } else if token.kind == TokenKind::String {
            let key = token_text(token);
            if idx + 1 < tokens.len() && tokens[idx + 1].kind == TokenKind::Colon {
                lemma_parsed_apart(tokens, idx + 2);
                let inner = parsed_value(tokens, idx + 2);
                match inner.value {
                    Some(value) => {
                        lemma_put_apart(members, key, value);
                        lemma_object_apart(tokens, idx + 2 + inner.used, put(members, key, value));
                    },
                    None => {
                        lemma_object_apart(tokens, idx + 2 + inner.used, members);
                    },
                }
            } else {
                lemma_put_apart(members, key, Json::Null);
                lemma_object_apart(tokens, idx + 1, put(members, key, Json::Null));
            }
        } else {
            lemma_object_apart(tokens, idx + 1, members);
        }
    }
}

proof fn lemma_array_apart(
    tokens: Seq<TokenView>,
    idx: int,
    after_element: bool,
    items: Seq<Json>,
)
    requires
        forall|i: int| 0 <= i < items.len() ==> keys_apart(#[trigger] items[i]),
    ensures
        keys_apart(parsed_array(tokens, idx, after_element, items).value),
    decreases remaining(tokens, idx), 1int,
{
    if 0 <= idx < tokens.len() {
        let kind = tokens[idx].kind;
        if kind == TokenKind::RBracket || kind == TokenKind::Eof {
        } else if after_element && kind == TokenKind::Comma {
            lemma_array_apart(tokens, idx + 1, false, items);
        } else if starts_value(kind) {
            lemma_started_apart(tokens, idx);
            let inner = parsed_started(tokens, idx);
            lemma_array_apart(tokens, idx + 1 + inner.used, true, items.push(inner.value));
        } else if after_element && kind != TokenKind::RBrace {
            lemma_array_apart(tokens, idx + 1, true, items);
        }
    }
}

/// What the parser hands back: the value, if there was one, and the
/// position of the first token it did not use.
#[derive(Debug)]
pub struct ParseResult {
    pub value: Option<serde_json::Value>,
    pub index: usize,
}

impl ParseResult {
    /// The tree of the value that was read, if one was.
    pub open spec fn tree(&self) -> Option<Json> {
        match self.value {
            Some(value) => Some(json_model(value)),
            None => None,
        }
    }
}

/// Reads a value tree from tokens. Values inside values are read by
/// recursion, so the stack bounds how deeply they may nest.
pub struct JSONParser;

impl JSONParser {
    /// A parser. It holds nothing; every call stands by itself.
    pub fn new() -> Self {
        Self {}
    }

    /// Reads the value that begins at position `idx` of `token_list`, and
    /// says where the first token stands that it did not use. It never runs
    /// past the tokens, and no object that it reads holds a key twice.
    pub fn parse(&self, token_list: &[Token], idx: usize) -> (result: ParseResult)
        ensures
            result.tree() == parsed_value(views(token_list@), idx as int).value,
            result.index == idx + parsed_value(views(token_list@), idx as int).used,
            idx <= token_list.len() ==> result.index <= token_list.len(),
            result.tree() matches Some(tree) ==> keys_apart(tree),
        decreases remaining(views(token_list@), idx as int), 0int,
    {
        if idx >= token_list.len() {
            return ParseResult { value: None, index: idx };
        }
        let ghost tokens = views(token_list@);
        proof {
            lemma_parsed_bounds(tokens, idx as int);
            lemma_parsed_apart(tokens, idx as int);
        }
        let token = &token_list[idx];
        match token.kind {
            TokenKind::LBrace => self.parse_object(token_list, idx + 1),
            TokenKind::LBracket => self.parse_array(token_list, idx + 1),
            TokenKind::String => {
                let text = match &token.value {
                    Some(text) => text.clone(),
                    None => String::new(),
                };
                ParseResult { value: Some(json_string(text)), index: idx + 1 }
            },
            TokenKind::Number => self.parse_number(token, idx),
            TokenKind::True => ParseResult { value: Some(json_bool(true)), index: idx + 1 },
            TokenKind::False => ParseResult { value: Some(json_bool(false)), index: idx + 1 },
            TokenKind::Null => ParseResult { value: Some(json_null()), index: idx + 1 },
            TokenKind::RBrace | TokenKind::RBracket | TokenKind::Eof => ParseResult {
                value: None,
                index: idx,
            },
            _ => ParseResult { value: None, index: idx + 1 },
        }
    }

    /// Reads the value of a number token that stands at position `idx`.
    fn parse_number(&self, token: &Token, idx: usize) -> (result: ParseResult)
        requires
            idx < usize::MAX,
        ensures
            result.tree() == Some(number_value(token@)),
            result.index == idx + 1,
    {
        proof {
            reveal_strlit("0");
            assert("0"@ =~= seq!['0']);
        }
        let text: &str = match &token.value {
            Some(text) => text.as_str(),
            None => "0",
        };
        let chars = characters(text);
        let number = if Self::marks_float(&chars) {
            json_number(trim_leading_zeros(&chars).as_str())
        } else {
            match parse_integer(&chars) {
                Some(number) => Some(json_integer(number)),
                None => None,
            }
        };
        ParseResult { value: Some(Self::number_or_text(text, number)), index: idx + 1 }
    }

    /// The value that stands for the text of a number, given what reading
    /// it as a number gave: the number that was read, or else the text as a
    /// string.
    pub fn number_or_text(text: &str, number: Option<serde_json::Value>) -> (value:
        serde_json::Value)
        ensures
            json_model(value) == match number {
                Some(number) => json_model(number),
                None => Json::String(text@),
            },
    {
        match number {
            Some(number) => number,
            None => json_string(text.to_owned()),
        }
    }

    /// Whether `chars` hold a mark of a fraction or an exponent.
    fn marks_float(chars: &Vec<char>) -> (marked: bool)
        ensures
            marked == has_float_mark(chars@),
    {
        let mut i: usize = 0;
        while i < chars.len()
            invariant
                i <= chars.len(),
                forall|k: int| 0 <= k < i ==> !is_float_mark(#[trigger] chars@[k]),
            decreases chars.len() - i,
        {
            let c = chars[i];
            if c == '.' || c == 'e' || c == 'E' {
                return true;
            }
            i += 1;
        }
        false
    }

    /// Reads the members of an object whose opening brace stands before
    /// `start_idx`. A comma is passed over like any other token that is no
    /// key, so a comma that is missing, doubled or trailing changes nothing.
    fn parse_object(&self, token_list: &[Token], start_idx: usize) -> (result: ParseResult)
        requires
            start_idx <= token_list.len(),
        ensures
            result.tree() == Some(
                parsed_object(views(token_list@), start_idx as int, Seq::empty()).value,
            ),
            result.index == start_idx + parsed_object(
                views(token_list@),
                start_idx as int,
                Seq::empty(),
            ).used,
        decreases remaining(views(token_list@), start_idx as int), 1int,
    {
        let ghost tokens = views(token_list@);
        let ghost whole = parsed_object(tokens, start_idx as int, Seq::empty());
        let mut result = new_map();
        let size = token_list.len();
        let mut idx = start_idx;
        while idx < size
            invariant
                start_idx <= idx <= size == token_list.len(),
                tokens == views(token_list@),
                whole == parsed_object(tokens, start_idx as int, Seq::empty()),
                whole.value == parsed_object(tokens, idx as int, map_members(result)).value,
                whole.used == (idx - start_idx) + parsed_object(
                    tokens,
                    idx as int,
                    map_members(result),
                ).used,
            decreases size - idx,
        {
            let token = &token_list[idx];
            if token.kind == TokenKind::RBrace || token.kind == TokenKind::Eof {
                return ParseResult { value: Some(json_object(result)), index: idx + 1 };
            }
            if token.kind == TokenKind::String {
                let key = match &token.value {
                    Some(text) => text.clone(),
                    None => String::new(),
                };
                idx += 1;
                if idx < size && token_list[idx].kind == TokenKind::Colon {
                    idx += 1;
                    proof {
                        lemma_parsed_bounds(tokens, idx as int);
                    }
                    let pr = self.parse(token_list, idx);
                    idx = pr.index;
                    if let Some(value) = pr.value {
                        map_insert(&mut result, key, value);
                    }
                } else {
                    // A key without a colon stands for a member that is null.
                    map_insert(&mut result, key, json_null());
                }
            } else {
                idx += 1;
            }
        }
        ParseResult { value: Some(json_object(result)), index: idx }
    }

    /// Reads the elements of an array whose opening bracket stands before
    /// `start_idx`. Where a comma is due, what is neither a comma, a closer
    /// nor the beginning of a value is passed over; where none is due, the
    /// array ends before such a token.
    fn parse_array(&self, token_list: &[Token], start_idx: usize) -> (result: ParseResult)
        requires
            start_idx <= token_list.len(),
        ensures
            result.tree() == Some(
                parsed_array(views(token_list@), start_idx as int, false, Seq::empty()).value,
            ),
            result.index == start_idx + parsed_array(
                views(token_list@),
                start_idx as int,
                false,
                Seq::empty(),
            ).used,
        decreases remaining(views(token_list@), start_idx as int), 1int,
    {
        let ghost tokens = views(token_list@);
        let ghost whole = parsed_array(tokens, start_idx as int, false, Seq::empty());
        let mut result: Vec<serde_json::Value> = Vec::with_capacity(16);
        let mut expect_comma = false;
        let size = token_list.len();
        let mut idx = start_idx;
        assert(models(result@) =~= Seq::empty());
        while idx < size
            invariant
                start_idx <= idx <= size == token_list.len(),
                tokens == views(token_list@),
                whole == parsed_array(tokens, start_idx as int, false, Seq::empty()),
                whole.value == parsed_array(
                    tokens,
                    idx as int,
                    expect_comma,
                    models(result@),
                ).value,
                whole.used == (idx - start_idx) + parsed_array(
                    tokens,
                    idx as int,
                    expect_comma,
                    models(result@),
                ).used,
            decreases size - idx,
        {
            let token = &token_list[idx];
            let ghost items = models(result@);
            if token.kind == TokenKind::RBracket || token.kind == TokenKind::Eof {
                return ParseResult { value: Some(json_array(result)), index: idx + 1 };
            }
            if expect_comma && token.kind == TokenKind::Comma {
                idx += 1;
                expect_comma = false;
            } else {
                let valid_token = token.kind == TokenKind::LBrace || token.kind
                    == TokenKind::LBracket || token.kind == TokenKind::String || token.kind
                    == TokenKind::Number || token.kind == TokenKind::True || token.kind
                    == TokenKind::False || token.kind == TokenKind::Null;
                if valid_token {
                    proof {
                        lemma_parsed_bounds(tokens, idx as int);
                    }
                    let pr = self.parse(token_list, idx);
                    let ghost inner = parsed_started(tokens, idx as int);
                    if let Some(value) = pr.value {
                        proof {
                            assert(models(result@.push(value)) =~= items.push(inner.value));
                        }
                        result.push(value);
                    }
                    idx = pr.index;
                    expect_comma = true;
                } else if expect_comma && token.kind != TokenKind::RBrace {
                    // A comma was due: the token is passed over, and a comma
                    // is still due.
                    idx += 1;
                } else {
                    return ParseResult { value: Some(json_array(result)), index: idx };
                }
            }
        }
        ParseResult { value: Some(json_array(result)), index: idx }
    }
}

impl Default for JSONParser {
    fn default() -> Self {
        Self::new()
    }
}

} // verus!
