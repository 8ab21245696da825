//! The token-stream fixer: balances brackets and braces by inserting the
//! closers that are missing and dropping those that nothing opened.

use vstd::prelude::*;
use crate::token::{bare_token, kinds, text_token, views, Token, TokenKind, TokenView};
use crate::tokenizer::ends_with_eof;

verus! {

/// Whether `kind` closes an object or an array.
pub open spec fn is_closer(kind: TokenKind) -> bool {
    kind == TokenKind::RBrace || kind == TokenKind::RBracket
}

/// The closer that a token of `kind` asks for, where it opens something.
pub open spec fn closer_of(kind: TokenKind) -> Option<TokenKind> {
    match kind {
        TokenKind::LBrace => Some(TokenKind::RBrace),
        TokenKind::LBracket => Some(TokenKind::RBracket),
        _ => None,
    }
}

/// The token that the fixer makes up for a closer of `kind`.
pub open spec fn closing_token(kind: TokenKind) -> TokenView {
    match kind {
        TokenKind::RBrace => text_token(TokenKind::RBrace, seq!['}']),
        TokenKind::RBracket => text_token(TokenKind::RBracket, seq![']']),
        _ => bare_token(TokenKind::Unknown),
    }
}

/// What the fixer holds while it scans: the tokens put out so far, the
/// closers still owed (the innermost last), and the end marker set aside.
pub struct FixState {
    pub out: Seq<TokenView>,
    pub stack: Seq<TokenKind>,
    pub eof: Option<TokenView>,
}

/// The fixer's state after one more token.
///
/// An opener is copied and its closer is owed. A closer that is owed next is
/// copied. A closer of the other kind has the owed one put out before it, and
/// is copied only if it is what is owed after that. A closer that nothing
/// owes is dropped. The end marker is set aside. Every other token is
/// copied.
pub open spec fn step(state: FixState, token: TokenView) -> FixState {
    if token.kind == TokenKind::Eof {
        FixState { eof: Some(token), ..state }
    } else if closer_of(token.kind) is Some {
        FixState {
            out: state.out.push(token),
            stack: state.stack.push(closer_of(token.kind)->0),
            ..state
        }
    } else if is_closer(token.kind) {
        if state.stack.len() == 0 {
            state
        } else if state.stack.last() == token.kind {
            FixState { out: state.out.push(token), stack: state.stack.drop_last(), ..state }
        } else {
            let out = state.out.push(closing_token(state.stack.last()));
            let stack = state.stack.drop_last();
            if stack.len() > 0 && stack.last() == token.kind {
                FixState { out: out.push(token), stack: stack.drop_last(), ..state }
            } else {
                FixState { out, stack, ..state }
            }
        }
    } else {
        FixState { out: state.out.push(token), ..state }
    }
}

/// The fixer's state after it has scanned `tokens`.
pub open spec fn scanned(tokens: Seq<TokenView>) -> FixState
    decreases tokens.len(),
{
    if tokens.len() == 0 {
        FixState { out: Seq::empty(), stack: Seq::empty(), eof: None }
    } else {
        step(scanned(tokens.drop_last()), tokens.last())
    }
}

/// The closers that pay off `stack`, the innermost first.
pub open spec fn closers(stack: Seq<TokenKind>) -> Seq<TokenView>
    decreases stack.len(),
{
    if stack.len() == 0 {
        Seq::empty()
    } else {
        seq![closing_token(stack.last())] + closers(stack.drop_last())
    }
}

/// The end marker that was set aside, if there was one.
pub open spec fn held(eof: Option<TokenView>) -> Seq<TokenView> {
    match eof {
        Some(token) => seq![token],
        None => Seq::empty(),
    }
}

/// What the fixer makes of `tokens`: what the scan put out, then the closers
/// still owed, then the end marker.
pub open spec fn repaired(tokens: Seq<TokenView>) -> Seq<TokenView> {
    let state = scanned(tokens);
    state.out + closers(state.stack) + held(state.eof)
}

/// The closers owed after `kinds`, the innermost last; `None` once a closer
/// has come that was not owed next.
pub open spec fn owed_after(kinds: Seq<TokenKind>) -> Option<Seq<TokenKind>>
    decreases kinds.len(),
{
    if kinds.len() == 0 {
        Some(Seq::empty())
    } else {
        match owed_after(kinds.drop_last()) {
            None => None,
            Some(stack) => {
                let kind = kinds.last();
                if closer_of(kind) is Some {
                    Some(stack.push(closer_of(kind)->0))
                } else if is_closer(kind) {
                    if stack.len() > 0 && stack.last() == kind {
                        Some(stack.drop_last())
                    } else {
                        None
                    }
                } else {
                    Some(stack)
                }
            },
        }
    }
}

/// Every opener in `kinds` has its closer later on, every closer its opener
/// before it, and they nest.
pub open spec fn balanced(kinds: Seq<TokenKind>) -> bool {
    owed_after(kinds) == Some(Seq::<TokenKind>::empty())
}

/// Whether an end marker stands somewhere in `tokens`.
pub open spec fn has_eof(tokens: Seq<TokenView>) -> bool {
    exists|k: int| 0 <= k < tokens.len() && (#[trigger] tokens[k]).kind == TokenKind::Eof
}

/// What holds of the fixer's state at every point of a scan.
pub open spec fn coherent(state: FixState) -> bool {
    &&& owed_after(kinds(state.out)) == Some(state.stack)
    &&& forall|k: int| 0 <= k < state.stack.len() ==> is_closer(#[trigger] state.stack[k])
    &&& forall|k: int|
        0 <= k < state.out.len() ==> (#[trigger] state.out[k]).kind != TokenKind::Eof
    &&& state.eof matches Some(token) ==> token.kind == TokenKind::Eof
}

proof fn lemma_owed_push(out: Seq<TokenView>, token: TokenView)
    ensures
        kinds(out.push(token)).drop_last() == kinds(out),
        kinds(out.push(token)).last() == token.kind,
        kinds(out.push(token)).len() == out.len() + 1,
{
}

proof fn lemma_step_coherent(state: FixState, token: TokenView)
    requires
        coherent(state),
    ensures
        coherent(step(state, token)),
{
    if token.kind != TokenKind::Eof {
        lemma_owed_push(state.out, token);
        if is_closer(token.kind) && state.stack.len() > 0 && state.stack.last() != token.kind {
            let made = closing_token(state.stack.last());
            let out = state.out.push(made);
            lemma_owed_push(state.out, made);
            assert(owed_after(kinds(out)) == Some(state.stack.drop_last()));
            lemma_owed_push(out, token);
        }
    }
}

/// The scan keeps its state coherent, whatever the tokens.
pub proof fn lemma_scan_coherent(tokens: Seq<TokenView>)
    ensures
        coherent(scanned(tokens)),
    decreases tokens.len(),
{
    if tokens.len() > 0 {
        lemma_scan_coherent(tokens.drop_last());
        lemma_step_coherent(scanned(tokens.drop_last()), tokens.last());
    }
}

/// Putting out the owed closers, innermost first, leaves nothing owed.
proof fn lemma_closers_balance(out: Seq<TokenView>, stack: Seq<TokenKind>)
    requires
        owed_after(kinds(out)) == Some(stack),
        forall|k: int| 0 <= k < stack.len() ==> is_closer(#[trigger] stack[k]),
        forall|k: int| 0 <= k < out.len() ==> (#[trigger] out[k]).kind != TokenKind::Eof,
    ensures
        balanced(kinds(out + closers(stack))),
        forall|k: int|
            0 <= k < (out + closers(stack)).len() ==> (#[trigger] (out + closers(stack))[k]).kind
                != TokenKind::Eof,
    decreases stack.len(),
{
    if stack.len() == 0 {
        assert(stack =~= Seq::<TokenKind>::empty());
    } else {
        let made = closing_token(stack.last());
        lemma_owed_push(out, made);
        lemma_closers_balance(out.push(made), stack.drop_last());
        assert(out + closers(stack) =~= out.push(made) + closers(stack.drop_last()));
    }
}

/// The shape of the bracket structure does not depend on tokens that are
/// neither openers nor closers.
proof fn lemma_owed_neutral(out: Seq<TokenView>, token: TokenView)
    requires
        closer_of(token.kind) is None,
        !is_closer(token.kind),
    ensures
        owed_after(kinds(out.push(token))) == owed_after(kinds(out)),
{
    lemma_owed_push(out, token);
}

/// Bracket balance: in what the fixer puts out, every opener has its closer
/// and every closer its opener, whatever came in.
pub proof fn lemma_repaired_balanced(tokens: Seq<TokenView>)
    ensures
        balanced(kinds(repaired(tokens))),
{
    let state = scanned(tokens);
    lemma_scan_coherent(tokens);
    lemma_closers_balance(state.out, state.stack);
    let body = state.out + closers(state.stack);
    if let Some(token) = state.eof {
        lemma_owed_neutral(body, token);
        assert(repaired(tokens) =~= body.push(token));
    }
}

proof fn lemma_scan_holds_eof(tokens: Seq<TokenView>)
    ensures
        has_eof(tokens) <==> scanned(tokens).eof is Some,
    decreases tokens.len(),
{
    if tokens.len() > 0 {
        let front = tokens.drop_last();
        lemma_scan_holds_eof(front);
        if has_eof(tokens) {
            let k = choose|k: int|
                0 <= k < tokens.len() && (#[trigger] tokens[k]).kind == TokenKind::Eof;
            if k < front.len() {
                assert(front[k] == tokens[k]);
            }
        }
    }
}

/// The end marker stays last: where an end marker came in, what the fixer
/// puts out ends with one and holds no other; where none came in, none goes
/// out.
pub proof fn lemma_repaired_eof(tokens: Seq<TokenView>)
    ensures
        has_eof(tokens) ==> repaired(tokens).len() > 0 && repaired(tokens).last().kind
            == TokenKind::Eof,
        forall|k: int|
            0 <= k < repaired(tokens).len() - 1 ==> (#[trigger] repaired(tokens)[k]).kind
                != TokenKind::Eof,
        !has_eof(tokens) ==> !has_eof(repaired(tokens)),
        ends_with_eof(tokens) ==> ends_with_eof(repaired(tokens)),
{
    let state = scanned(tokens);
    lemma_scan_coherent(tokens);
    lemma_scan_holds_eof(tokens);
    lemma_closers_balance(state.out, state.stack);
}

/// No end marker stands in `tokens` but, at most, as the last of them.
pub open spec fn eof_only_last(tokens: Seq<TokenView>) -> bool {
    forall|k: int| 0 <= k < tokens.len() - 1 ==> (#[trigger] tokens[k]).kind != TokenKind::Eof
}

/// Tokens without an end marker whose closers are all owed pass through the
/// scan as they are, and the scan owes what they owe.
proof fn lemma_scan_copies(tokens: Seq<TokenView>)
    requires
        owed_after(kinds(tokens)) is Some,
        !has_eof(tokens),
    ensures
        scanned(tokens).out == tokens,
        scanned(tokens).stack == owed_after(kinds(tokens))->0,
        scanned(tokens).eof is None,
    decreases tokens.len(),
{
    if tokens.len() > 0 {
        let front = tokens.drop_last();
        assert(tokens =~= front.push(tokens.last()));
        lemma_owed_push(front, tokens.last());
        lemma_scan_copies(front);
    }
}

/// Missing closers are put in at the end: where every closer that came was
/// owed, and the end marker stands last and nowhere else, the fixer keeps
/// all tokens and puts the closers still owed before the end marker.
pub proof fn lemma_repaired_truncated(tokens: Seq<TokenView>)
    requires
        ends_with_eof(tokens),
        owed_after(kinds(tokens)) is Some,
    ensures
        repaired(tokens) == tokens.drop_last() + closers(owed_after(kinds(tokens))->0) + seq![
            tokens.last(),
        ],
        repaired(tokens).len() >= tokens.len(),
{
    let front = tokens.drop_last();
    assert(tokens =~= front.push(tokens.last()));
    lemma_owed_push(front, tokens.last());
    lemma_scan_copies(front);
}

/// What is balanced stays as it is: the fixer changes nothing in tokens
/// that are balanced and hold no end marker but, at most, as their last.
pub proof fn lemma_repaired_unchanged(tokens: Seq<TokenView>)
    requires
        balanced(kinds(tokens)),
        eof_only_last(tokens),
    ensures
        repaired(tokens) == tokens,
{
    if has_eof(tokens) {
        let front = tokens.drop_last();
        assert(tokens =~= front.push(tokens.last()));
        lemma_owed_push(front, tokens.last());
        lemma_scan_copies(front);
    } else {
        lemma_scan_copies(tokens);
    }
}

/// Fixing twice gives what fixing once gives, whatever the tokens.
pub proof fn lemma_repaired_twice(tokens: Seq<TokenView>)
    ensures
        repaired(repaired(tokens)) == repaired(tokens),
{
    lemma_repaired_balanced(tokens);
    lemma_repaired_eof(tokens);
    lemma_repaired_unchanged(repaired(tokens));
}

/// The fixer puts out at most twice as many tokens as came in.
pub proof fn lemma_repaired_length(tokens: Seq<TokenView>)
    ensures
        repaired(tokens).len() <= 2 * tokens.len(),
{
    lemma_scan_length(tokens);
    lemma_closers_length(scanned(tokens).stack);
}

proof fn lemma_closers_length(stack: Seq<TokenKind>)
    ensures
        closers(stack).len() == stack.len(),
    decreases stack.len(),
{
    if stack.len() > 0 {
        lemma_closers_length(stack.drop_last());
    }
}

proof fn lemma_scan_length(tokens: Seq<TokenView>)
    ensures
        scanned(tokens).out.len() + scanned(tokens).stack.len() + held(scanned(tokens).eof).len()
            <= 2 * tokens.len(),
        scanned(tokens).eof is None ==> scanned(tokens).out.len() + scanned(tokens).stack.len()
            <= 2 * tokens.len(),
        scanned(tokens).eof is Some ==> scanned(tokens).out.len() + scanned(tokens).stack.len()
            + 2 <= 2 * tokens.len(),
    decreases tokens.len(),
{
    if tokens.len() > 0 {
        lemma_scan_length(tokens.drop_last());
    }
}

/// Balances the brackets and braces of a token stream.
pub struct JSONTokenFixer;

impl JSONTokenFixer {
    /// Copies `tokens`, putting in the closers that are missing and leaving
    /// out those that nothing opened, and keeps the end marker last. What
    /// comes out is balanced, and at most twice as long as what went in.
    pub fn fix_tokens(tokens: Vec<Token>) -> (fixed: Vec<Token>)
        ensures
            views(fixed@) == repaired(views(tokens@)),
            balanced(kinds(views(fixed@))),
            ends_with_eof(views(tokens@)) ==> ends_with_eof(views(fixed@)),
            fixed@.len() <= 2 * tokens@.len(),
    {
        let ghost input = views(tokens@);
        let mut fixed: Vec<Token> = Vec::new();
        let mut stack: Vec<TokenKind> = Vec::new();
        let mut eof_token: Option<Token> = None;
        for token in it: tokens
            invariant
                views(it.seq()) == input,
                scanned(input.take(it.index() as int)).out == views(fixed@),
                scanned(input.take(it.index() as int)).stack == stack@,
                scanned(input.take(it.index() as int)).eof == match eof_token {
                    Some(token) => Some(token@),
                    None => None,
                },
        {
            proof {
                let ghost k = it.index() as int;
                assert(input.take(k + 1).drop_last() =~= input.take(k));
            }
            match token.kind {
                TokenKind::Eof => {
                    eof_token = Some(token);
                },
                TokenKind::LBrace => {
                    fixed.push(token);
                    stack.push(TokenKind::RBrace);
                },
                TokenKind::LBracket => {
                    fixed.push(token);
                    stack.push(TokenKind::RBracket);
                },
                TokenKind::RBrace | TokenKind::RBracket => {
                    let depth = stack.len();
                    if depth > 0 {
                        let expected = stack[depth - 1];
                        if token.kind == expected {
                            stack.pop();
                            fixed.push(token);
                        } else {
                            let made = Self::create_closing_token(expected);
                            fixed.push(made);
                            stack.pop();
                            let depth = stack.len();
                            if depth > 0 && token.kind == stack[depth - 1] {
                                stack.pop();
                                fixed.push(token);
                            }
                        }
                    }
                },
                _ => {
                    fixed.push(token);
                },
            }
        }
        assert(input.take(input.len() as int) =~= input);
        let ghost state = scanned(input);
        let ghost out = views(fixed@);
        while stack.len() > 0
            invariant
                out + closers(state.stack) == views(fixed@) + closers(stack@),
            decreases stack.len(),
        {
            let expected = stack[stack.len() - 1];
            let made = Self::create_closing_token(expected);
            proof {
                assert(views(fixed@) + closers(stack@) =~= views(fixed@).push(made@) + closers(
                    stack@.drop_last(),
                ));
            }
            stack.pop();
            fixed.push(made);
        }
        if let Some(token) = eof_token {
            fixed.push(token);
        }
        proof {
            lemma_repaired_balanced(input);
            lemma_repaired_eof(input);
            lemma_repaired_length(input);
        }
        fixed
    }

    /// The token that stands for a closer of `kind`.
    fn create_closing_token(kind: TokenKind) -> (token: Token)
        ensures
            token@ == closing_token(kind),
    {
        proof {
            reveal_strlit("}");
            reveal_strlit("]");
            assert("}"@ =~= seq!['}']);
            assert("]"@ =~= seq![']']);
        }
        match kind {
            TokenKind::RBrace => Token::new(TokenKind::RBrace, Some("}".to_owned())),
            TokenKind::RBracket => Token::new(TokenKind::RBracket, Some("]".to_owned())),
            _ => Token::new_simple(TokenKind::Unknown),
        }
    }
}

} // verus!
