//! The lenient tokenizer: raw text in, tokens out, never a failure.

use vstd::prelude::*;
use crate::chars::{
    characters, is_literal_char, is_space, lowercase, spec_is_literal_char, spec_is_space,
    spec_lowercase,
};
use crate::pattern::{
    compile, is_match, pattern_accepts, pattern_text, IDENTIFIER_PATTERN, NUMBER_PATTERN,
};
use crate::token::{bare_token, text_token, views, Token, TokenKind, TokenView};

verus! {

/// The kind of the structural token that `c` stands for, if it is one.
pub open spec fn punctuation(c: char) -> Option<TokenKind> {
    if c == '{' {
        Some(TokenKind::LBrace)
    } else if c == '}' {
        Some(TokenKind::RBrace)
    } else if c == '[' {
        Some(TokenKind::LBracket)
    } else if c == ']' {
        Some(TokenKind::RBracket)
    } else if c == ':' {
        Some(TokenKind::Colon)
    } else if c == ',' {
        Some(TokenKind::Comma)
    } else {
        None
    }
}

/// Where the text of a string ends whose first character stands at `i`: at
/// the closing quote, at the end of the input, or at a backslash that is the
/// input's last character. A backslash takes the character after it along,
/// whatever that is.
pub open spec fn content_end(s: Seq<char>, i: int) -> int
    decreases s.len() - i,
{
    if i >= s.len() {
        i
    } else if s[i] == '"' {
        i
    } else if s[i] == '\\' {
        if i + 1 < s.len() {
            content_end(s, i + 2)
        } else {
            i
        }
    } else {
        content_end(s, i + 1)
    }
}

/// Where scanning goes on after a string whose text ended at `end`: behind
/// the character that ended it, if there was one.
pub open spec fn resume(s: Seq<char>, end: int) -> int {
    if end < s.len() {
        end + 1
    } else {
        end
    }
}

/// Where the literal run ends that holds position `i`: at the first
/// character from there on that is no character of literal runs.
pub open spec fn run_end(s: Seq<char>, i: int) -> int
    decreases s.len() - i,
{
    if 0 <= i < s.len() && spec_is_literal_char(s[i]) {
        run_end(s, i + 1)
    } else {
        i
    }
}

/// Whether `run` is a prefix of `full`, capital letters counting as small
/// ones.
pub open spec fn keyword_prefix(run: Seq<char>, full: Seq<char>) -> bool {
    &&& run.len() <= full.len()
    &&& forall|k: int| 0 <= k < run.len() ==> spec_lowercase(#[trigger] run[k]) == full[k]
}

/// The full literal that a run is the beginning of: `tr` stands for `true`,
/// `FALS` for `false`, `n` for `null`.
pub open spec fn keyword(run: Seq<char>) -> Option<TokenView> {
    if run.len() == 0 {
        None
    } else if keyword_prefix(run, "true"@) {
        Some(text_token(TokenKind::True, "true"@))
    } else if keyword_prefix(run, "false"@) {
        Some(text_token(TokenKind::False, "false"@))
    } else if keyword_prefix(run, "null"@) {
        Some(text_token(TokenKind::Null, "null"@))
    } else {
        None
    }
}

/// The token for a literal run, given what the two patterns said of it. A
/// beginning of `true`, `false` or `null` is that literal in full. Then a
/// number keeps its text, an identifier becomes a string, and anything else
/// is unknown.
pub open spec fn classify(run: Seq<char>, numeric: bool, identifier: bool) -> TokenView {
    match keyword(run) {
        Some(token) => token,
        None => if numeric {
            text_token(TokenKind::Number, run)
        } else if identifier {
            text_token(TokenKind::String, run)
        } else {
            text_token(TokenKind::Unknown, run)
        },
    }
}

/// The token for a literal run.
pub open spec fn literal(run: Seq<char>) -> TokenView {
    classify(
        run,
        pattern_accepts(NUMBER_PATTERN@, run),
        pattern_accepts(IDENTIFIER_PATTERN@, run),
    )
}

/// The tokens of `s` from position `i` on, the end marker last.
///
/// White space is passed over. Each of `{ } [ ] : ,` is a token of its own.
/// A double quote opens a string, which runs to the next quote that no
/// backslash stands before, or to the end. The longest run of letters,
/// digits, `-`, `+` and `.` is one literal. Any other character is passed
/// over.
pub open spec fn tokens_from(s: Seq<char>, i: int) -> Seq<TokenView>
    decreases s.len() - i,
{
    if i < 0 || i >= s.len() {
        seq![bare_token(TokenKind::Eof)]
    } else if spec_is_space(s[i]) {
        tokens_from(s, i + 1)
    } else if punctuation(s[i]) is Some {
        seq![text_token(punctuation(s[i])->0, seq![s[i]])] + tokens_from(s, i + 1)
    } else if s[i] == '"' {
        let end = content_end(s, i + 1);
        proof {
            lemma_content_end_bounds(s, i + 1);
        }
        seq![text_token(TokenKind::String, s.subrange(i + 1, end))] + tokens_from(
            s,
            resume(s, end),
        )
    } else if spec_is_literal_char(s[i]) {
        let end = run_end(s, i);
        proof {
            lemma_run_end_bounds(s, i + 1);
        }
        seq![literal(s.subrange(i, end))] + tokens_from(s, end)
    } else {
        tokens_from(s, i + 1)
    }
}

/// The tokens of a whole text.
pub open spec fn tokenized(s: Seq<char>) -> Seq<TokenView> {
    tokens_from(s, 0)
}

/// The end marker stands last in `tokens`, and nowhere else.
pub open spec fn ends_with_eof(tokens: Seq<TokenView>) -> bool {
    &&& tokens.len() > 0
    &&& tokens.last() == bare_token(TokenKind::Eof)
    &&& forall|k: int| 0 <= k < tokens.len() - 1 ==> (#[trigger] tokens[k]).kind != TokenKind::Eof
}

/// The text of a string ends between where it began and the end of the input.
pub proof fn lemma_content_end_bounds(s: Seq<char>, i: int)
    requires
        0 <= i <= s.len(),
    ensures
        i <= content_end(s, i) <= s.len(),
    decreases s.len() - i,
{
    if i < s.len() && s[i] != '"' {
        if s[i] == '\\' {
            if i + 1 < s.len() {
                lemma_content_end_bounds(s, i + 2);
            }
        } else {
            lemma_content_end_bounds(s, i + 1);
        }
    }
}

/// A literal run ends between the position asked about and the end of the
/// input.
pub proof fn lemma_run_end_bounds(s: Seq<char>, i: int)
    requires
        0 <= i <= s.len(),
    ensures
        i <= run_end(s, i) <= s.len(),
    decreases s.len() - i,
{
    if i < s.len() && spec_is_literal_char(s[i]) {
        lemma_run_end_bounds(s, i + 1);
    }
}

/// No literal run is read as the end marker.
proof fn lemma_classify_kind(run: Seq<char>, numeric: bool, identifier: bool)
    ensures
        classify(run, numeric, identifier).kind != TokenKind::Eof,
        classify(run, numeric, identifier).value is Some,
{
}

/// Tokenizing ends with the end marker and yields it nowhere else, whatever
/// the text.
pub proof fn lemma_tokens_end_with_eof(s: Seq<char>, i: int)
    requires
        0 <= i,
    ensures
        ends_with_eof(tokens_from(s, i)),
    decreases s.len() - i,
{
    if i >= s.len() {
    } else if spec_is_space(s[i]) {
        lemma_tokens_end_with_eof(s, i + 1);
    } else if punctuation(s[i]) is Some {
        lemma_tokens_end_with_eof(s, i + 1);
    } else if s[i] == '"' {
        lemma_content_end_bounds(s, i + 1);
        lemma_tokens_end_with_eof(s, resume(s, content_end(s, i + 1)));
    } else if spec_is_literal_char(s[i]) {
        lemma_run_end_bounds(s, i + 1);
        let run = s.subrange(i, run_end(s, i));
        lemma_classify_kind(
            run,
            pattern_accepts(NUMBER_PATTERN@, run),
            pattern_accepts(IDENTIFIER_PATTERN@, run),
        );
        lemma_tokens_end_with_eof(s, run_end(s, i));
    } else {
        lemma_tokens_end_with_eof(s, i + 1);
    }
}

/// Scans raw text into tokens.
pub struct JSONTokenizer {
    number: regex::Regex,
    identifier: regex::Regex,
}

impl JSONTokenizer {
    #[verifier::type_invariant]
    spec fn holds_patterns(self) -> bool {
        &&& pattern_text(self.number) == NUMBER_PATTERN@
        &&& pattern_text(self.identifier) == IDENTIFIER_PATTERN@
    }

    /// A tokenizer with its two patterns compiled: the one that tells numbers
    /// and the one that tells identifiers.
    pub fn new() -> (tokenizer: Self)
        ensures
            tokenizer.patterns() == (NUMBER_PATTERN@, IDENTIFIER_PATTERN@),
    {
        Self { number: compile(NUMBER_PATTERN), identifier: compile(IDENTIFIER_PATTERN) }
    }

    /// The patterns that the two compiled expressions of the tokenizer stand
    /// for: first the one for numbers, then the one for identifiers.
    pub closed spec fn patterns(&self) -> (Seq<char>, Seq<char>) {
        (pattern_text(self.number), pattern_text(self.identifier))
    }

    /// Turns `input` into tokens. White space and characters that belong to
    /// no token are passed over; a string that the input cuts short keeps
    /// what there was of it; the end marker comes last.
    pub fn tokenize(&mut self, input: &str) -> (tokens: Vec<Token>)
        ensures
            views(tokens@) == tokenized(input@),
            ends_with_eof(views(tokens@)),
            *final(self) == *old(self),
    {
        let chars = characters(input);
        let length = chars.len();
        let mut tokens: Vec<Token> = Vec::with_capacity(length / 4);
        let mut i: usize = 0;
        while i < length
            invariant
                i <= length == chars.len(),
                chars@ == input@,
                tokenized(input@) == views(tokens@) + tokens_from(input@, i as int),
                *self == *old(self),
            decreases length - i,
        {
            let c = chars[i];
            if is_space(c) {
                i += 1;
            } else if let Some(kind) = Self::structural_kind(c) {
                let mut text = String::new();
                text.push(c);
                let token = Token::new(kind, Some(text));
                tokens.push(token);
                i += 1;
            } else if c == '"' {
                let (text, next) = self.parse_string(&chars, i + 1);
                let token = Token::new(TokenKind::String, Some(text));
                tokens.push(token);
                i = next;
            } else if is_literal_char(c) {
                let (run, next) = Self::literal_run(&chars, i);
                let token = self.correct_literal(run.as_str());
                tokens.push(token);
                i = next;
            } else {
                i += 1;
            }
        }
        let token = Token::new_simple(TokenKind::Eof);
        proof {
            lemma_tokens_end_with_eof(input@, 0);
        }
        tokens.push(token);
        tokens
    }

    /// The kind of the structural token that `c` stands for, if it is one.
    fn structural_kind(c: char) -> (kind: Option<TokenKind>)
        ensures
            kind == punctuation(c),
    {
        if c == '{' {
            Some(TokenKind::LBrace)
        } else if c == '}' {
            Some(TokenKind::RBrace)
        } else if c == '[' {
            Some(TokenKind::LBracket)
        } else if c == ']' {
            Some(TokenKind::RBracket)
        } else if c == ':' {
            Some(TokenKind::Colon)
        } else if c == ',' {
            Some(TokenKind::Comma)
        } else {
            None
        }
    }

    /// Reads the text of a string whose first character stands at `start`,
    /// and says where scanning goes on. Nothing is decoded: a backslash and
    /// the character after it are kept as they are.
    fn parse_string(&self, chars: &Vec<char>, start: usize) -> (result: (String, usize))
        requires
            start <= chars.len(),
        ensures
            result.0@ == chars@.subrange(start as int, content_end(chars@, start as int)),
            result.1 == resume(chars@, content_end(chars@, start as int)),
            start <= result.1 <= chars.len(),
    {
        let length = chars.len();
        let mut text = String::new();
        let mut i: usize = start;
        proof {
            lemma_content_end_bounds(chars@, start as int);
        }
        while i < length
            invariant
                start <= i <= length == chars.len(),
                text@ == chars@.subrange(start as int, i as int),
                content_end(chars@, start as int) == content_end(chars@, i as int),
            decreases length - i,
        {
            let c = chars[i];
            if c == '"' {
                return (text, i + 1);
            } else if c == '\\' {
                if i + 1 < length {
                    text.push(c);
                    text.push(chars[i + 1]);
                    i += 2;
                } else {
                    return (text, i + 1);
                }
            } else {
                text.push(c);
                i += 1;
            }
        }
        (text, i)
    }

    /// Reads the literal run that begins at `start`, and says where it ends.
    fn literal_run(chars: &Vec<char>, start: usize) -> (result: (String, usize))
        requires
            start < chars.len(),
            spec_is_literal_char(chars[start as int]),
        ensures
            result.0@ == chars@.subrange(start as int, run_end(chars@, start as int)),
            result.1 == run_end(chars@, start as int),
            start < result.1 <= chars.len(),
    {
        let length = chars.len();
        let mut run = String::new();
        let mut i: usize = start;
        while i < length && is_literal_char(chars[i])
            invariant
                start <= i <= length == chars.len(),
                run@ == chars@.subrange(start as int, i as int),
                run_end(chars@, start as int) == run_end(chars@, i as int),
            decreases length - i,
        {
            run.push(chars[i]);
            i += 1;
        }
        (run, i)
    }

    /// Names the token that the literal run `raw` stands for.
    fn correct_literal(&self, raw: &str) -> (token: Token)
        ensures
            token@ == literal(raw@),
    {
        proof {
            use_type_invariant(self);
        }
        let numeric = is_match(&self.number, raw);
        let identifier = is_match(&self.identifier, raw);
        self.classify_literal(raw, numeric, identifier)
    }

    /// Names the token for the literal run `raw`, given whether the number
    /// pattern and the identifier pattern accept it.
    pub fn classify_literal(&self, raw: &str, numeric: bool, identifier: bool) -> (token: Token)
        ensures
            token@ == classify(raw@, numeric, identifier),
    {
        proof {
            reveal_strlit("true");
            reveal_strlit("false");
            reveal_strlit("null");
        }
        let len = raw.unicode_len();
        if 0 < len && len <= 5 {
            let first = lowercase(raw.get_char(0));
            if first == 't' {
                if self.match_literal(raw, "true") {
                    return Token::true_token();
                }
            } else if first == 'f' {
                if self.match_literal(raw, "false") {
                    return Token::false_token();
                }
            } else if first == 'n' {
                if self.match_literal(raw, "null") {
                    return Token::null_token();
                }
            }
        }
        if numeric {
            Token::new(TokenKind::Number, Some(raw.to_owned()))
        } else if identifier {
            Token::new(TokenKind::String, Some(raw.to_owned()))
        } else {
            Token::new(TokenKind::Unknown, Some(raw.to_owned()))
        }
    }

    /// Whether `raw` is a beginning of `full`, capital letters counting as
    /// small ones.
    fn match_literal(&self, raw: &str, full: &str) -> (matched: bool)
        ensures
            matched == keyword_prefix(raw@, full@),
    {
        let len = raw.unicode_len();
        if len > full.unicode_len() {
            return false;
        }
        let mut i: usize = 0;
        while i < len
            invariant
                i <= len == raw@.len() <= full@.len(),
                forall|k: int| 0 <= k < i ==> spec_lowercase(#[trigger] raw@[k]) == full@[k],
            decreases len - i,
        {
            if lowercase(raw.get_char(i)) != full.get_char(i) {
                return false;
            }
            i += 1;
        }
        true
    }
}

impl Default for JSONTokenizer {
    fn default() -> Self {
        Self::new()
    }
}

} // verus!
