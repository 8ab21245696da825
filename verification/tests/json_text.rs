use jsonfixer::json_text::is_json;
use jsonfixer::{JSONAutoCorrector, JSONSerializer};
use serde_json::{Number, Value};

fn valid_texts() -> Vec<&'static str> {
    vec![
        "null",
        "true",
        "false",
        "0",
        "-0",
        "7",
        "-12",
        "1234567890",
        "0.5",
        "-0.0",
        "1.25",
        "1e5",
        "1E5",
        "1e+5",
        "1e-5",
        "1.5e10",
        "1.7976931348623157e+308",
        "5e-324",
        "0e0",
        "\"\"",
        "\"abc\"",
        "\"a b\"",
        "\"héllo → 日本語\"",
        "\"\\\"\"",
        "\"\\\\\"",
        "\"\\/\"",
        "\"\\b\\f\\n\\r\\t\"",
        "\"\\u0041\\u00e9\\uABCD\\uabcd\"",
        "\"\u{7f}\"",
        "[]",
        "[ ]",
        "[1]",
        "[1,2,3]",
        "[ 1 , 2 , 3 ]",
        "[[],[[]],{}]",
        "{}",
        "{ }",
        "{\"a\":1}",
        "{\"a\":1,\"b\":[true,false,null],\"c\":{\"d\":\"e\"}}",
        "{ \"a\" : 1 , \"b\" : 2 }",
        "{\"\":\"\"}",
        "{\"a\":1,\"a\":2}",
        " \t\r\n{\"a\":[1,\n 2]}\n",
        "{\n  \"key\": 42\n}",
    ]
}

fn invalid_texts() -> Vec<&'static str> {
    vec![
        "",
        " ",
        "nul",
        "nulll",
        "null null",
        "True",
        "tru",
        "+1",
        "01",
        "-",
        "-a",
        ".5",
        "5.",
        "1.e5",
        "1e",
        "1e+",
        "1.2.3",
        "0x10",
        "1 2",
        "\"",
        "\"abc",
        "abc\"",
        "\"a\"b\"",
        "\"\\\"",
        "\"\\x\"",
        "\"\\u12\"",
        "\"\\u12G4\"",
        "\"\n\"",
        "\"\t\"",
        "\"\u{0}\"",
        "\"\u{1f}\"",
        "'a'",
        "[",
        "]",
        "[1",
        "[1,",
        "[1,]",
        "[,1]",
        "[1,,2]",
        "[1 2]",
        "[1}",
        "{",
        "}",
        "{\"a\"}",
        "{\"a\":}",
        "{\"a\":1",
        "{\"a\":1,}",
        "{,\"a\":1}",
        "{\"a\" 1}",
        "{\"a\":1 \"b\":2}",
        "{a:1}",
        "{1:1}",
        "{\"a\":1]",
        "[]]",
        "{}}",
        "{}{}",
        "[] []",
        "// c\n1",
        "\u{a0}1",
        "1\u{c}",
    ]
}

#[test]
fn json_text_is_taken() {
    for text in valid_texts() {
        assert!(is_json(text), "{:?}", text);
    }
}

#[test]
fn other_text_is_refused() {
    for text in invalid_texts() {
        assert!(!is_json(text), "{:?}", text);
    }
}

#[test]
fn the_grammar_agrees_with_a_strict_parser() {
    for text in valid_texts() {
        let parsed: Result<Value, _> = serde_json::from_str(text);
        assert!(parsed.is_ok(), "{:?}", text);
    }
    for text in invalid_texts() {
        let parsed: Result<Value, _> = serde_json::from_str(text);
        assert!(parsed.is_err(), "{:?}", text);
    }
}

#[test]
fn every_beginning_of_a_text_is_judged_as_a_strict_parser_judges_it() {
    let whole = " {\"name\":\"A \\\"b\\\" \\u00e9\",\"list\":[1,-2.5e3,0.5,true,false,null,{\"x\":[]}],\"é\":{}} ";
    let mut end = 0;
    for c in whole.chars() {
        let text = &whole[..end];
        let parsed: Result<Value, _> = serde_json::from_str(text);
        assert_eq!(is_json(text), parsed.is_ok(), "{:?}", text);
        end += c.len_utf8();
    }
    assert!(is_json(whole));
}

fn number(f: f64) -> Value {
    Value::Number(Number::from_f64(f).unwrap())
}

fn sample_values() -> Vec<Value> {
    let mut control = String::new();
    for code in 0u32..0x80 {
        control.push(char::from_u32(code).unwrap());
    }
    let mut object = serde_json::Map::new();
    object.insert(String::new(), Value::Null);
    object.insert("a \"quoted\" key".to_string(), Value::Bool(true));
    object.insert("back\\slash".to_string(), Value::Array(vec![]));
    object.insert("日本語".to_string(), Value::Object(serde_json::Map::new()));
    object.insert(control.clone(), Value::String(control.clone()));
    let mut values = vec![
        Value::Null,
        Value::Bool(true),
        Value::Bool(false),
        Value::Number(Number::from(0)),
        Value::Number(Number::from(-1)),
        Value::Number(Number::from(i64::MAX)),
        Value::Number(Number::from(i64::MIN)),
        Value::Number(Number::from(u64::MAX)),
        Value::String(String::new()),
        Value::String("plain".to_string()),
        Value::String(control),
        Value::String("héllo → 日本語 \u{1f600} \u{2028}\u{2029}\u{feff}".to_string()),
        Value::Array(vec![]),
        Value::Object(serde_json::Map::new()),
        Value::Object(object.clone()),
        Value::Array(vec![Value::Null, Value::Object(object), Value::Array(vec![Value::Array(vec![])])]),
    ];
    for f in [
        0.0,
        -0.0,
        1.0,
        -1.0,
        0.1,
        0.5,
        1.5,
        100.0,
        1e15,
        1e16,
        1e17,
        1e21,
        1e22,
        1e100,
        1e-5,
        1e-7,
        1.5e-10,
        123456789.125,
        0.30000000000000004,
        3.141592653589793,
        f64::MAX,
        f64::MIN,
        f64::MIN_POSITIVE,
        5e-324,
        f64::EPSILON,
        4503599627370496.0,
        9007199254740993.0,
    ] {
        values.push(number(f));
    }
    values
}

#[test]
fn what_the_serializer_writes_is_json_text() {
    let serializer = JSONSerializer::new();
    for value in sample_values() {
        let compact = serializer.serialize(&value);
        assert!(is_json(&compact), "{:?}", compact);
        let pretty = serializer.serialize_pretty(&value);
        assert!(is_json(&pretty), "{:?}", pretty);
    }
    assert!(is_json(&JSONSerializer::or_null(None)));
}

#[test]
fn what_the_corrector_hands_back_is_json_text() {
    let mut corrector = JSONAutoCorrector::new();
    for input in [
        "",
        "{",
        "}",
        "[1,2",
        "{\"a\":\"x\\",
        "{\"a\":\"\u{1}\u{2}\t\n\"",
        "[1e999, 01.5, -0.0, 1E5, 12345678901234567890, tr, abc, \"é\"",
        "{\"k\":[{\"x\":1},{\"y\":2",
        "{'a':1}",
        "<html>",
        "\"\\",
        "{\"a\":{\"b\":{\"c\":[[[1",
    ] {
        let compact = corrector.autocorrect(input);
        assert!(is_json(&compact), "{:?} -> {:?}", input, compact);
        let pretty = corrector.autocorrect_pretty(input);
        assert!(is_json(&pretty), "{:?} -> {:?}", input, pretty);
    }
}

#[test]
fn short_texts_are_judged_as_a_strict_parser_judges_them() {
    let alphabet: Vec<char> = "{}[]\":,\\ \n-+.0123456789eEtruefalsnbAéx/".chars().collect();
    let mut seed: u64 = 0x2545f4914f6cdd1d;
    let mut judged_json = 0;
    for round in 0..60000 {
        let length = 1 + round % 9;
        let mut text = String::new();
        for _ in 0..length {
            seed ^= seed << 13;
            seed ^= seed >> 7;
            seed ^= seed << 17;
            text.push(alphabet[(seed % alphabet.len() as u64) as usize]);
        }
        let parsed: Result<Value, _> = serde_json::from_str(&text);
        match parsed {
            Ok(_) => {
                assert!(is_json(&text), "{:?}", text);
                judged_json += 1;
            }
            Err(error) => {
                if is_json(&text) {
                    assert!(error.to_string().contains("number out of range"), "{:?}", text);
                }
            }
        }
    }
    assert!(judged_json > 100);
}
