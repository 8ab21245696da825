use jsonfixer::chars::{characters, is_digit, is_letter, is_literal_char, is_space, lowercase};

#[test]
fn white_space() {
    for c in [' ', '\t', '\n', '\r', '\x0C'] {
        assert!(is_space(c), "{:?}", c);
    }
    for c in ['a', '0', '\x0B', '\u{a0}', '\u{2003}', '\0', '_'] {
        assert!(!is_space(c), "{:?}", c);
    }
}

#[test]
fn classes_agree_with_the_standard_library() {
    for code in 0u32..0x300 {
        let c = char::from_u32(code).unwrap();
        assert_eq!(is_space(c), c.is_ascii_whitespace(), "{:?}", c);
        assert_eq!(is_letter(c), c.is_ascii_alphabetic(), "{:?}", c);
        assert_eq!(is_digit(c), c.is_ascii_digit(), "{:?}", c);
        assert_eq!(lowercase(c), c.to_ascii_lowercase(), "{:?}", c);
        assert_eq!(
            is_literal_char(c),
            c.is_ascii_alphanumeric() || c == '-' || c == '+' || c == '.',
            "{:?}",
            c
        );
    }
}

#[test]
fn small_letters() {
    assert_eq!(lowercase('A'), 'a');
    assert_eq!(lowercase('Z'), 'z');
    assert_eq!(lowercase('m'), 'm');
    assert_eq!(lowercase('5'), '5');
    assert_eq!(lowercase('É'), 'É');
    assert_eq!(lowercase('['), '[');
    assert_eq!(lowercase('@'), '@');
}

#[test]
fn characters_of_a_text() {
    assert_eq!(characters(""), Vec::<char>::new());
    assert_eq!(characters("abc"), vec!['a', 'b', 'c']);
    assert_eq!(characters("é→𝄞"), vec!['é', '→', '𝄞']);
}
