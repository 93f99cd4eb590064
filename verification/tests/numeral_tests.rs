use molaxis::mcs1::parse_word;
use molaxis::numeral::parse_u16_decimal;

#[test]
fn parse_u16_accepts_plain_and_plus_signed_digits() {
    assert_eq!(parse_u16_decimal("123"), Some(123));
    assert_eq!(parse_u16_decimal("+7"), Some(7));
    assert_eq!(parse_u16_decimal("000"), Some(0));
    assert_eq!(parse_u16_decimal("065535"), Some(65535));
}

#[test]
fn parse_u16_refuses_other_text() {
    assert_eq!(parse_u16_decimal(""), None);
    assert_eq!(parse_u16_decimal("+"), None);
    assert_eq!(parse_u16_decimal("-"), None);
    assert_eq!(parse_u16_decimal("-1"), None);
    assert_eq!(parse_u16_decimal("65536"), None);
    assert_eq!(parse_u16_decimal("12a"), None);
    assert_eq!(parse_u16_decimal(" 12"), None);
    assert_eq!(parse_u16_decimal("\u{ff11}\u{ff12}"), None);
}

#[test]
fn parse_u16_agrees_with_std() {
    for s in ["0", "9", "+65535", "65536", "-0", "", "+", "1_000", "99999999999"] {
        assert_eq!(parse_u16_decimal(s), s.parse::<u16>().ok(), "{:?}", s);
    }
}

#[test]
fn parse_word_reads_hexadecimal() {
    assert_eq!(parse_word("ff"), Some(255));
    assert_eq!(parse_word("Ab"), Some(171));
    assert_eq!(parse_word("+10"), Some(16));
    assert_eq!(parse_word("-10"), Some(-16));
    assert_eq!(parse_word("7fffffffffffffff"), Some(i64::MAX));
    assert_eq!(parse_word("-8000000000000000"), Some(i64::MIN));
}

#[test]
fn parse_word_refuses_other_text() {
    assert_eq!(parse_word(""), None);
    assert_eq!(parse_word("-"), None);
    assert_eq!(parse_word("0x10"), None);
    assert_eq!(parse_word("8000000000000000"), None);
    assert_eq!(parse_word("-8000000000000001"), None);
    assert_eq!(parse_word("12 "), None);
    assert_eq!(parse_word("g"), None);
}

#[test]
fn parse_word_agrees_with_std() {
    for s in ["0", "ffff", "FFFFffff", "-1", "+-1", "--1", "100000000000000000", "0000000000000000001"] {
        assert_eq!(parse_word(s), i64::from_str_radix(s, 16).ok(), "{:?}", s);
    }
}
