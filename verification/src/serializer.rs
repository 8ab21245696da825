//! The serializer: a value tree in, JSON text out.

use vstd::prelude::*;
use crate::json::{compact_text, json_model, pretty_text, to_compact, to_pretty};
use crate::json_text::{is_json, is_json_text, lemma_null_is_json};

verus! {

/// The text that stands for a tree: what was written for it, where that is
/// JSON text, and `null` where nothing was written or what was written is
/// not JSON text.
pub open spec fn text_or_null(written: Option<Seq<char>>) -> Seq<char> {
    match written {
        Some(text) => if is_json_text(text) {
            text
        } else {
            "null"@
        },
        None => "null"@,
    }
}

/// Writes value trees as JSON text.
pub struct JSONSerializer;

impl JSONSerializer {
    /// A serializer. It holds nothing; every call stands by itself.
    pub fn new() -> Self {
        Self {}
    }

    /// The tree as JSON text without white space.
    pub fn serialize(&self, value: &serde_json::Value) -> (text: String)
        ensures
            text@ == text_or_null(compact_text(json_model(*value))),
            is_json_text(text@),
    {
        Self::or_null(to_compact(value))
    }

    /// The tree as indented JSON text, one member or element to a line.
    pub fn serialize_pretty(&self, value: &serde_json::Value) -> (text: String)
        ensures
            text@ == text_or_null(pretty_text(json_model(*value))),
            is_json_text(text@),
    {
        Self::or_null(to_pretty(value))
    }

    /// The text that was written, or `null` where writing failed or did not
    /// give JSON text. Either way, what comes back is JSON text.
    pub fn or_null(written: Option<String>) -> (text: String)
        ensures
            text@ == text_or_null(
                match written {
                    Some(text) => Some(text@),
                    None => None,
                },
            ),
            is_json_text(text@),
    {
        proof {
            lemma_null_is_json();
        }
        match written {
            Some(text) => if is_json(text.as_str()) {
                text
            } else {
                "null".to_owned()
            },
            None => "null".to_owned(),
        }
    }
}

impl Default for JSONSerializer {
    fn default() -> Self {
        Self::new()
    }
}

} // verus!
