//! Repairs broken JSON text: truncated input, unmatched brackets and braces,
//! missing commas and colons, cut-off literals and trailing commas.
//!
//! The work is done in four passes, each over the whole output of the one
//! before: a lenient tokenizer ([`tokenizer`]), a fixer that balances
//! brackets ([`token_fixer`]), a forgiving parser ([`parser`]) and a
//! serializer ([`serializer`]). [`autocorrector`] runs them in turn. No pass
//! fails, whatever the text.
//!
//! Numbers and identifiers are told apart by two regular expressions
//! ([`pattern`]); the value tree and its text are those of `serde_json`
//! ([`json`]). What comes out is JSON text, as [`json_text`] defines it.

pub mod autocorrector;
pub mod chars;
pub mod json;
pub mod json_text;
pub mod number;
pub mod parser;
pub mod pattern;
pub mod serializer;
pub mod token;
pub mod token_fixer;
pub mod tokenizer;

pub use autocorrector::JSONAutoCorrector;
pub use parser::{JSONParser, ParseResult};
pub use serializer::JSONSerializer;
pub use token::{Token, TokenKind};
pub use token_fixer::JSONTokenFixer;
pub use tokenizer::JSONTokenizer;
