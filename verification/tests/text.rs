use brisc8::text::{
    chars_of, parse_int_exec, parse_string, string_literal_panic, push_utf8, trim_chars, IntErrorKind, LexPanic,
};

fn cs(s: &str) -> Vec<char> {
    s.chars().collect()
}

#[test]
fn parse_int_follows_from_str_radix() {
    assert_eq!(parse_int_exec(&cs("255"), 10, false, 0, 255), Ok(255));
    assert_eq!(parse_int_exec(&cs("256"), 10, false, 0, 255), Err(IntErrorKind::PosOverflow));
    assert_eq!(parse_int_exec(&cs("-5"), 10, false, 0, 255), Err(IntErrorKind::InvalidDigit));
    assert_eq!(parse_int_exec(&cs("-5"), 10, true, -128, 127), Ok(-5));
    assert_eq!(parse_int_exec(&cs("-129"), 10, true, -128, 127), Err(IntErrorKind::NegOverflow));
    assert_eq!(parse_int_exec(&cs("+fF"), 16, false, 0, 255), Ok(255));
    assert_eq!(parse_int_exec(&cs(""), 16, false, 0, 255), Err(IntErrorKind::Empty));
    assert_eq!(parse_int_exec(&cs("+"), 16, false, 0, 255), Err(IntErrorKind::InvalidDigit));
    assert_eq!(parse_int_exec(&cs("999x"), 10, false, 0, 255), Err(IntErrorKind::PosOverflow));
    assert_eq!(parse_int_exec(&cs("x999"), 10, false, 0, 255), Err(IntErrorKind::InvalidDigit));
    assert_eq!(parse_int_exec(&cs("0007"), 10, false, 0, 255), Ok(7));
}

#[test]
fn utf8_matches_std() {
    for c in ['a', 'é', '€', '😀', '\u{7f}', '\u{80}', '\u{7ff}', '\u{800}', '\u{ffff}', '\u{10000}'] {
        let mut v = vec![1u8];
        push_utf8(&mut v, c);
        let mut expected = vec![1u8];
        expected.extend_from_slice(c.to_string().as_bytes());
        assert_eq!(v, expected);
    }
}

#[test]
fn trim_matches_std() {
    for s in ["  a b  ", "\u{a0}x\u{2028}", "", "   ", "\tq\r\n"] {
        assert_eq!(trim_chars(&cs(s)), cs(s.trim()));
    }
    assert_eq!(chars_of("héllo"), cs("héllo"));
}

#[test]
fn string_literals() {
    assert_eq!(parse_string(&cs("\"a\\nb\"rest")), b"a\nb".to_vec());
    assert_eq!(parse_string(&cs("\"\\'\\\\\"")), b"'\\".to_vec());
    assert_eq!(string_literal_panic(&cs("\"a\\nb\"rest")), None);
    assert_eq!(string_literal_panic(&cs("\"\\z\"")), Some(LexPanic::UnhandledEscape));
    assert_eq!(string_literal_panic(&cs("\"ab\\")), Some(LexPanic::UnterminatedString));
}
