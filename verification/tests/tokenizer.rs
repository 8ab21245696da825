use jsonfixer::{JSONTokenizer, TokenKind};

#[test]
fn test_basic_tokenizer() {
    let mut tokenizer = JSONTokenizer::new();
    let tokens = tokenizer.tokenize("{\"key\":42}");

    assert_eq!(tokens.len(), 6);
    assert_eq!(tokens[0].kind, TokenKind::LBrace);
    assert_eq!(tokens[1].kind, TokenKind::String);
    assert_eq!(tokens[1].value.as_ref().unwrap(), "key");
    assert_eq!(tokens[2].kind, TokenKind::Colon);
    assert_eq!(tokens[3].kind, TokenKind::Number);
    assert_eq!(tokens[3].value.as_ref().unwrap(), "42");
    assert_eq!(tokens[4].kind, TokenKind::RBrace);
    assert_eq!(tokens[5].kind, TokenKind::Eof);
}

#[test]
fn test_tokenizer_basic() {
    let mut tokenizer = JSONTokenizer::new();
    let tokens = tokenizer.tokenize("{\"key\":42}");

    assert_eq!(tokens.len(), 6);
    assert_eq!(tokens[0].kind, TokenKind::LBrace);
    assert_eq!(tokens[1].kind, TokenKind::String);
    assert_eq!(tokens[1].value.as_ref().unwrap(), "key");
    assert_eq!(tokens[2].kind, TokenKind::Colon);
    assert_eq!(tokens[3].kind, TokenKind::Number);
    assert_eq!(tokens[3].value.as_ref().unwrap(), "42");
    assert_eq!(tokens[4].kind, TokenKind::RBrace);
    assert_eq!(tokens[5].kind, TokenKind::Eof);
}

#[test]
fn test_tokenizer_incomplete_string() {
    let mut tokenizer = JSONTokenizer::new();
    let tokens = tokenizer.tokenize("{\"key\":\"incomplete");

    assert_eq!(tokens[3].kind, TokenKind::String);
    assert_eq!(tokens[3].value.as_ref().unwrap(), "incomplete");
}

#[test]
fn test_tokenizer_partial_literals() {
    let mut tokenizer = JSONTokenizer::new();

    let tokens = tokenizer.tokenize("tr");
    assert_eq!(tokens[0].kind, TokenKind::True);

    let tokens = tokenizer.tokenize("fals");
    assert_eq!(tokens[0].kind, TokenKind::False);

    let tokens = tokenizer.tokenize("nul");
    assert_eq!(tokens[0].kind, TokenKind::Null);
}

#[test]
fn test_tokenizer_scientific_notation() {
    let mut tokenizer = JSONTokenizer::new();
    let tokens = tokenizer.tokenize("1.5e10");

    assert_eq!(tokens[0].kind, TokenKind::Number);
    assert_eq!(tokens[0].value.as_ref().unwrap(), "1.5e10");
}

fn kinds_of(input: &str) -> Vec<TokenKind> {
    let mut tokenizer = JSONTokenizer::new();
    tokenizer.tokenize(input).iter().map(|t| t.kind).collect()
}

fn texts_of(input: &str) -> Vec<Option<String>> {
    let mut tokenizer = JSONTokenizer::new();
    tokenizer.tokenize(input).iter().map(|t| t.value.clone()).collect()
}

fn text(s: &str) -> Option<String> {
    Some(s.to_string())
}

#[test]
fn empty_input_is_only_the_end_marker() {
    let mut tokenizer = JSONTokenizer::new();
    let tokens = tokenizer.tokenize("");
    assert_eq!(tokens.len(), 1);
    assert_eq!(tokens[0].kind, TokenKind::Eof);
    assert!(tokens[0].value.is_none());
}

#[test]
fn white_space_is_passed_over() {
    assert_eq!(kinds_of(" \t\n\r\x0C"), vec![TokenKind::Eof]);
    assert_eq!(
        kinds_of(" { \t\"a\"\n:\r1\x0C} "),
        vec![
            TokenKind::LBrace,
            TokenKind::String,
            TokenKind::Colon,
            TokenKind::Number,
            TokenKind::RBrace,
            TokenKind::Eof
        ]
    );
}

#[test]
fn structural_tokens_carry_their_character() {
    assert_eq!(
        kinds_of("{}[]:,"),
        vec![
            TokenKind::LBrace,
            TokenKind::RBrace,
            TokenKind::LBracket,
            TokenKind::RBracket,
            TokenKind::Colon,
            TokenKind::Comma,
            TokenKind::Eof
        ]
    );
    assert_eq!(
        texts_of("{}[]:,"),
        vec![text("{"), text("}"), text("["), text("]"), text(":"), text(","), None]
    );
}

#[test]
fn escapes_are_kept_as_written() {
    assert_eq!(texts_of(r#""a\"b""#), vec![text(r#"a\"b"#), None]);
    assert_eq!(texts_of(r#""a\\" 1"#), vec![text(r#"a\\"#), text("1"), None]);
    assert_eq!(texts_of(r#""line\nbreak\u0041""#), vec![text(r#"line\nbreak\u0041"#), None]);
}

#[test]
fn a_backslash_that_ends_the_input_is_dropped() {
    assert_eq!(texts_of("\"ab\\"), vec![text("ab"), None]);
    assert_eq!(kinds_of("\"ab\\"), vec![TokenKind::String, TokenKind::Eof]);
}

#[test]
fn a_string_cut_short_keeps_what_there_was() {
    assert_eq!(texts_of("\"abc"), vec![text("abc"), None]);
    assert_eq!(texts_of("\""), vec![text(""), None]);
    assert_eq!(texts_of("\"a\\\"b"), vec![text("a\\\"b"), None]);
}

#[test]
fn characters_outside_ascii_pass_through_in_strings() {
    assert_eq!(texts_of("\"héllo → ü\""), vec![text("héllo → ü"), None]);
    assert_eq!(kinds_of("é → ü"), vec![TokenKind::Eof]);
}

#[test]
fn beginnings_of_literals_become_the_literal() {
    for input in ["t", "tr", "tru", "true", "T", "TR", "TrU", "TRUE"] {
        assert_eq!(kinds_of(input), vec![TokenKind::True, TokenKind::Eof], "{}", input);
        assert_eq!(texts_of(input), vec![text("true"), None], "{}", input);
    }
    for input in ["f", "fa", "fal", "fals", "false", "F", "FALS", "FaLsE"] {
        assert_eq!(kinds_of(input), vec![TokenKind::False, TokenKind::Eof], "{}", input);
        assert_eq!(texts_of(input), vec![text("false"), None], "{}", input);
    }
    for input in ["n", "nu", "nul", "null", "N", "NUL", "nULL"] {
        assert_eq!(kinds_of(input), vec![TokenKind::Null, TokenKind::Eof], "{}", input);
        assert_eq!(texts_of(input), vec![text("null"), None], "{}", input);
    }
}

#[test]
fn longer_words_are_identifiers() {
    for input in ["truex", "nulll", "falsey", "ture", "abc", "abc123", "e", "E5", "x"] {
        assert_eq!(kinds_of(input), vec![TokenKind::String, TokenKind::Eof], "{}", input);
        assert_eq!(texts_of(input), vec![text(input), None], "{}", input);
    }
}

#[test]
fn numbers_keep_their_text() {
    for input in ["0", "42", "-12", "3.14", "-0.5", "1e5", "1E5", "1e+5", "1.5e-3", "007", "01.50"] {
        assert_eq!(kinds_of(input), vec![TokenKind::Number, TokenKind::Eof], "{}", input);
        assert_eq!(texts_of(input), vec![text(input), None], "{}", input);
    }
}

#[test]
fn runs_that_are_neither_are_unknown() {
    for input in ["1.2.3", "-", "--1", "1e", "1.", "12abc", "a-b", "a.b", "1-2", "a+b", "-a"] {
        assert_eq!(kinds_of(input), vec![TokenKind::Unknown, TokenKind::Eof], "{}", input);
        assert_eq!(texts_of(input), vec![text(input), None], "{}", input);
    }
}

#[test]
fn a_run_may_begin_with_plus_or_dot() {
    for input in ["+5", ".5", "+", ".", "..", "+1.5e3", ".e", "5+.x", "+tr"] {
        assert_eq!(kinds_of(input), vec![TokenKind::Unknown, TokenKind::Eof], "{}", input);
        assert_eq!(texts_of(input), vec![text(input), None], "{}", input);
    }
}

#[test]
fn other_characters_are_passed_over() {
    assert_eq!(kinds_of("@#$%^&*()_=;'<>?/|~`"), vec![TokenKind::Eof]);
    assert_eq!(kinds_of("_a"), vec![TokenKind::String, TokenKind::Eof]);
    assert_eq!(texts_of("_a"), vec![text("a"), None]);
    assert_eq!(texts_of("a_b"), vec![text("a"), text("b"), None]);
}

#[test]
fn a_run_ends_at_the_first_character_it_cannot_hold() {
    assert_eq!(
        kinds_of("tr,12]abc\"x\""),
        vec![
            TokenKind::True,
            TokenKind::Comma,
            TokenKind::Number,
            TokenKind::RBracket,
            TokenKind::String,
            TokenKind::String,
            TokenKind::Eof
        ]
    );
}

#[test]
fn the_end_marker_is_last_and_alone() {
    for input in ["", "{", "}}}", "[1,2", "\"open", "tr fa nu", "{\"a\":[1,{\"b\":2}]}", "@@@"] {
        let kinds = kinds_of(input);
        assert_eq!(kinds.last(), Some(&TokenKind::Eof), "{}", input);
        assert_eq!(kinds.iter().filter(|k| **k == TokenKind::Eof).count(), 1, "{}", input);
    }
}

#[test]
fn classify_goes_by_what_the_patterns_said() {
    let tokenizer = JSONTokenizer::new();
    let token = tokenizer.classify_literal("xyz", true, false);
    assert_eq!(token.kind, TokenKind::Number);
    assert_eq!(token.value, text("xyz"));
    let token = tokenizer.classify_literal("xyz", true, true);
    assert_eq!(token.kind, TokenKind::Number);
    let token = tokenizer.classify_literal("12", false, true);
    assert_eq!(token.kind, TokenKind::String);
    assert_eq!(token.value, text("12"));
    let token = tokenizer.classify_literal("xyz", false, false);
    assert_eq!(token.kind, TokenKind::Unknown);
    assert_eq!(token.value, text("xyz"));
    let token = tokenizer.classify_literal("", false, false);
    assert_eq!(token.kind, TokenKind::Unknown);
    assert_eq!(token.value, text(""));
}

#[test]
fn classify_puts_literals_first() {
    let tokenizer = JSONTokenizer::new();
    let token = tokenizer.classify_literal("nul", true, true);
    assert_eq!(token.kind, TokenKind::Null);
    assert_eq!(token.value, text("null"));
    let token = tokenizer.classify_literal("F", false, true);
    assert_eq!(token.kind, TokenKind::False);
    assert_eq!(token.value, text("false"));
    let token = tokenizer.classify_literal("trueee", false, true);
    assert_eq!(token.kind, TokenKind::String);
    let token = tokenizer.classify_literal("tré", false, false);
    assert_eq!(token.kind, TokenKind::Unknown);
}

#[test]
fn a_tokenizer_can_be_used_again() {
    let mut tokenizer = JSONTokenizer::default();
    let first = tokenizer.tokenize("\"abc\" 1");
    let second = tokenizer.tokenize("\"x\"");
    assert_eq!(first.len(), 3);
    assert_eq!(second.len(), 2);
    assert_eq!(second[0].value, text("x"));
}
