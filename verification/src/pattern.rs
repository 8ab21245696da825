//! The patterns that tell numbers and identifiers apart, and the regular
//! expression engine that decides them.

use vstd::prelude::*;

verus! {

/// `regex::Regex`: a compiled regular expression.
#[verifier::external_type_specification]
#[verifier::external_body]
pub struct ExRegex(regex::Regex);

/// A numeric literal: an optional minus sign, digits, an optional fraction
/// and an optional exponent.
pub const NUMBER_PATTERN: &'static str = r"^-?\d+(\.\d+)?([eE][+-]?\d+)?$";

/// A bare identifier: a letter or underscore, then word characters.
pub const IDENTIFIER_PATTERN: &'static str = r"^[A-Za-z_]\w*$";

/// The pattern that a compiled expression stands for. For an expression that
/// `Regex::new` has compiled, it is the text that was given.
pub uninterp spec fn pattern_text(re: regex::Regex) -> Seq<char>;

/// Whether the expression written as `pattern` finds a match in `text`:
/// what `Regex::is_match` answers. The regular-expression engine decides
/// this; nothing here reasons about what a pattern means.
pub uninterp spec fn pattern_accepts(pattern: Seq<char>, text: Seq<char>) -> bool;

/// Compiles one of the two patterns with `Regex::new`.
///
/// `Regex::new` refuses a pattern that it cannot parse or that compiles to
/// more than its size limit. Both patterns here are within its syntax and
/// small, so the compiled expression is taken out of the result directly.
/// The expression stands for the pattern text it was given.
#[verifier::external_body]
pub(crate) fn compile(pattern: &str) -> (re: regex::Regex)
    requires
        pattern@ == NUMBER_PATTERN@ || pattern@ == IDENTIFIER_PATTERN@,
    ensures
        pattern_text(re) == pattern@,
{
    regex::Regex::new(pattern).unwrap()
}

/// Asks `Regex::is_match` whether the expression matches somewhere in `text`.
///
/// The answer depends alone on the pattern that the expression stands for
/// and on the text.
#[verifier::external_body]
pub(crate) fn is_match(re: &regex::Regex, text: &str) -> (found: bool)
    ensures
        found == pattern_accepts(pattern_text(*re), text@),
{
    re.is_match(text)
}

} // verus!
