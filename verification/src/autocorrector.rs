//! The corrector: broken JSON text in, valid JSON text out.

use vstd::prelude::*;
use crate::json::{compact_text, json_model, json_object, new_map, pretty_text, Json};
use crate::json_text::is_json_text;
use crate::parser::{parsed_value, JSONParser};
use crate::pattern::{IDENTIFIER_PATTERN, NUMBER_PATTERN};
use crate::serializer::{text_or_null, JSONSerializer};
use crate::token_fixer::{repaired, JSONTokenFixer};
use crate::tokenizer::{tokenized, JSONTokenizer};

verus! {

/// The value tree that a text is corrected to: what the parser reads from
/// the repaired tokens of the text, or an empty object where it reads no
/// value.
pub open spec fn corrected_tree(input: Seq<char>) -> Json {
    match parsed_value(repaired(tokenized(input)), 0).value {
        Some(value) => value,
        None => Json::Object(Seq::empty()),
    }
}

/// The compact text that `input` is corrected to.
pub open spec fn corrected(input: Seq<char>) -> Seq<char> {
    text_or_null(compact_text(corrected_tree(input)))
}

/// The indented text that `input` is corrected to.
pub open spec fn corrected_pretty(input: Seq<char>) -> Seq<char> {
    text_or_null(pretty_text(corrected_tree(input)))
}

/// Repairs broken JSON text: tokenizes it, balances its brackets, reads a
/// value tree from it and writes the tree out.
pub struct JSONAutoCorrector {
    tokenizer: JSONTokenizer,
    parser: JSONParser,
    serializer: JSONSerializer,
}

impl JSONAutoCorrector {
    /// A corrector with a tokenizer, a parser and a serializer of its own;
    /// the tokenizer has its two patterns compiled.
    pub fn new() -> (corrector: Self)
        ensures
            corrector.patterns() == (NUMBER_PATTERN@, IDENTIFIER_PATTERN@),
    {
        Self {
            tokenizer: JSONTokenizer::new(),
            parser: JSONParser::new(),
            serializer: JSONSerializer::new(),
        }
    }

    /// The patterns that the corrector's tokenizer holds compiled: first the
    /// one for numbers, then the one for identifiers.
    pub closed spec fn patterns(&self) -> (Seq<char>, Seq<char>) {
        self.tokenizer.patterns()
    }

    /// The value that `input` is corrected to.
    fn correct(&mut self, input: &str) -> (value: serde_json::Value)
        ensures
            json_model(value) == corrected_tree(input@),
    {
        let tokens = self.tokenizer.tokenize(input);
        let fixed_tokens = JSONTokenFixer::fix_tokens(tokens);
        let parse_result = self.parser.parse(fixed_tokens.as_slice(), 0);
        match parse_result.value {
            Some(value) => value,
            None => json_object(new_map()),
        }
    }

    /// Corrects `input` and writes the result without white space. Whatever
    /// the input, what comes back is JSON text.
    pub fn autocorrect(&mut self, input: &str) -> (text: String)
        ensures
            text@ == corrected(input@),
            is_json_text(text@),
    {
        let value = self.correct(input);
        self.serializer.serialize(&value)
    }

    /// Corrects `input` and writes the result indented. Whatever the input,
    /// what comes back is JSON text.
    pub fn autocorrect_pretty(&mut self, input: &str) -> (text: String)
        ensures
            text@ == corrected_pretty(input@),
            is_json_text(text@),
    {
        let value = self.correct(input);
        self.serializer.serialize_pretty(&value)
    }
}

impl Default for JSONAutoCorrector {
    fn default() -> Self {
        Self::new()
    }
}

} // verus!
