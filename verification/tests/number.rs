use jsonfixer::number::{parse_integer, trim_leading_zeros};

fn parse(text: &str) -> Option<i64> {
    parse_integer(&text.chars().collect())
}

#[test]
fn digits_are_read() {
    assert_eq!(parse("0"), Some(0));
    assert_eq!(parse("7"), Some(7));
    assert_eq!(parse("42"), Some(42));
    assert_eq!(parse("1234567890"), Some(1234567890));
    assert_eq!(parse("000"), Some(0));
    assert_eq!(parse("0042"), Some(42));
}

#[test]
fn a_sign_may_come_first() {
    assert_eq!(parse("-1"), Some(-1));
    assert_eq!(parse("+1"), Some(1));
    assert_eq!(parse("-0"), Some(0));
    assert_eq!(parse("+0"), Some(0));
    assert_eq!(parse("-0042"), Some(-42));
}

#[test]
fn the_ends_of_the_range_are_read() {
    assert_eq!(parse("9223372036854775807"), Some(i64::MAX));
    assert_eq!(parse("+9223372036854775807"), Some(i64::MAX));
    assert_eq!(parse("-9223372036854775808"), Some(i64::MIN));
    assert_eq!(parse("-9223372036854775807"), Some(i64::MIN + 1));
    assert_eq!(parse("0000000000000000000009223372036854775807"), Some(i64::MAX));
}

#[test]
fn what_does_not_fit_is_not_read() {
    assert_eq!(parse("9223372036854775808"), None);
    assert_eq!(parse("-9223372036854775809"), None);
    assert_eq!(parse("18446744073709551616"), None);
    assert_eq!(parse("340282366920938463463374607431768211456"), None);
    assert_eq!(parse("99999999999999999999999999999999999999999999999999"), None);
}

#[test]
fn other_text_is_not_read() {
    for text in ["", "-", "+", "+-1", "--1", "1-", "1 ", " 1", "1.0", "1e3", "a", "12a", "0x10", "１２"] {
        assert_eq!(parse(text), None, "{:?}", text);
    }
}

#[test]
fn reading_agrees_with_the_standard_library() {
    for text in [
        "", "0", "-0", "+0", "1", "-1", "+1", "007", "-007", "9223372036854775807",
        "9223372036854775808", "-9223372036854775808", "-9223372036854775809", "abc", "1a", "-",
        "+", "++1", "1_000", "1,000", " 5", "5 ", "٣", "99999999999999999999",
    ] {
        assert_eq!(parse(text), text.parse::<i64>().ok(), "{:?}", text);
    }
}

fn trim(text: &str) -> String {
    trim_leading_zeros(&text.chars().collect())
}

#[test]
fn zeros_that_add_nothing_are_dropped() {
    assert_eq!(trim("01.5"), "1.5");
    assert_eq!(trim("007.50"), "7.50");
    assert_eq!(trim("-00.5"), "-0.5");
    assert_eq!(trim("-01e5"), "-1e5");
    assert_eq!(trim("000"), "0");
    assert_eq!(trim("-000"), "-0");
    assert_eq!(trim("0010"), "10");
}

#[test]
fn other_text_is_kept_by_trimming() {
    for text in ["", "-", "0", "-0", "0.5", "-0.5", "0e1", "1.05", "10.0", "a01", "+01", ".01", "0a1", "--01"] {
        assert_eq!(trim(text), text, "{:?}", text);
    }
}

#[test]
fn trimming_keeps_the_number() {
    for text in ["01.5", "007.50", "-00.5", "-01e5", "0.5", "000.125e2", "1.5"] {
        let before: f64 = text.parse().unwrap();
        let after: f64 = trim(text).parse().unwrap();
        assert_eq!(before.to_bits(), after.to_bits(), "{:?}", text);
    }
}
