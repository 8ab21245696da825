use vstd::prelude::*;

verus! {

/// The lexical category of a token.
#[derive(Debug, Clone, Copy, PartialEq, Eq, Structural)]
pub enum TokenKind {
    /// `{`
    LBrace,
    /// `}`
    RBrace,
    /// `[`
    LBracket,
    /// `]`
    RBracket,
    /// `:`
    Colon,
    /// `,`
    Comma,
    /// A quoted string, or a bare identifier read as one.
    String,
    /// A numeric literal, kept as written.
    Number,
    /// `true`, or a prefix of it.
    True,
    /// `false`, or a prefix of it.
    False,
    /// `null`, or a prefix of it.
    Null,
    /// The end of the input.
    Eof,
    /// A run of literal characters that is none of the above.
    Unknown,
}

/// A token as contracts see it: its kind and the characters of its text.
pub struct TokenView {
    pub kind: TokenKind,
    pub value: Option<Seq<char>>,
}

/// One lexical unit: a kind and, for all but the end marker, its text.
#[derive(Debug, Clone)]
pub struct Token {
    pub kind: TokenKind,
    pub value: Option<String>,
}

impl View for Token {
    type V = TokenView;

    open spec fn view(&self) -> TokenView {
        TokenView {
            kind: self.kind,
            value: match self.value {
                Some(text) => Some(text@),
                None => None,
            },
        }
    }
}

/// The views of a sequence of tokens, in order.
pub open spec fn views(tokens: Seq<Token>) -> Seq<TokenView> {
    tokens.map_values(|t: Token| t@)
}

/// The kinds of a sequence of tokens, in order.
pub open spec fn kinds(tokens: Seq<TokenView>) -> Seq<TokenKind> {
    tokens.map_values(|t: TokenView| t.kind)
}

/// A token of `kind` that carries `text`.
pub open spec fn text_token(kind: TokenKind, text: Seq<char>) -> TokenView {
    TokenView { kind, value: Some(text) }
}

/// A token of `kind` without text.
pub open spec fn bare_token(kind: TokenKind) -> TokenView {
    TokenView { kind, value: None }
}

/// The characters a token carries; none where it has no text.
pub open spec fn token_text(token: TokenView) -> Seq<char> {
    match token.value {
        Some(text) => text,
        None => Seq::empty(),
    }
}

impl Token {
    /// A token of `kind` with the text `value`, if any.
    pub fn new(kind: TokenKind, value: Option<String>) -> (token: Self)
        ensures
            token.kind == kind,
            token.value == value,
    {
        Self { kind, value }
    }

    /// A token of `kind` without text.
    pub fn new_simple(kind: TokenKind) -> (token: Self)
        ensures
            token@ == bare_token(kind),
            token.value is None,
    {
        Self { kind, value: None }
    }

    /// The literal `true`.
    pub fn true_token() -> (token: Self)
        ensures
            token@ == text_token(TokenKind::True, "true"@),
    {
        Self::new(TokenKind::True, Some("true".to_owned()))
    }

    /// The literal `false`.
    pub fn false_token() -> (token: Self)
        ensures
            token@ == text_token(TokenKind::False, "false"@),
    {
        Self::new(TokenKind::False, Some("false".to_owned()))
    }

    /// The literal `null`.
    pub fn null_token() -> (token: Self)
        ensures
            token@ == text_token(TokenKind::Null, "null"@),
    {
        Self::new(TokenKind::Null, Some("null".to_owned()))
    }
}

} // verus!
