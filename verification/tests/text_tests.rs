use memstress::text::{
    pad_center, pad_left, pad_right, parse_u128, parse_u16, parse_u64, parse_u8,
    split_char, split_whitespace_tokens, str_eq, trim, u128_to_string, u64_to_string,
    u64_to_string_pad2,
};

#[test]
fn parse_u128_plain_numbers() {
    assert_eq!(parse_u128("0"), Some(0));
    assert_eq!(parse_u128("42"), Some(42));
    assert_eq!(parse_u128("000123"), Some(123));
    assert_eq!(parse_u128("+7"), Some(7));
}

#[test]
fn parse_u128_rejects_garbage() {
    assert_eq!(parse_u128(""), None);
    assert_eq!(parse_u128("+"), None);
    assert_eq!(parse_u128("-1"), None);
    assert_eq!(parse_u128("12a"), None);
    assert_eq!(parse_u128(" 12"), None);
    assert_eq!(parse_u128("1 2"), None);
}

#[test]
fn parse_u128_boundary() {
    assert_eq!(
        parse_u128("340282366920938463463374607431768211455"),
        Some(u128::MAX)
    );
    assert_eq!(parse_u128("340282366920938463463374607431768211456"), None);
}

#[test]
fn narrow_parsers_respect_their_width() {
    assert_eq!(parse_u64("18446744073709551615"), Some(u64::MAX));
    assert_eq!(parse_u64("18446744073709551616"), None);
    assert_eq!(parse_u16("65535"), Some(65535));
    assert_eq!(parse_u16("65536"), None);
    assert_eq!(parse_u8("255"), Some(255));
    assert_eq!(parse_u8("256"), None);
}

#[test]
fn numbers_render_in_decimal() {
    assert_eq!(u128_to_string(0), "0");
    assert_eq!(u128_to_string(7), "7");
    assert_eq!(u128_to_string(1234567890), "1234567890");
    assert_eq!(u128_to_string(u128::MAX), "340282366920938463463374607431768211455");
    assert_eq!(u64_to_string(99), "99");
}

#[test]
fn two_digit_padding() {
    assert_eq!(u64_to_string_pad2(0), "00");
    assert_eq!(u64_to_string_pad2(9), "09");
    assert_eq!(u64_to_string_pad2(10), "10");
    assert_eq!(u64_to_string_pad2(100), "100");
}

#[test]
fn string_equality_by_characters() {
    assert!(str_eq("Swap:", "Swap:"));
    assert!(!str_eq("Swap:", "Swap"));
    assert!(!str_eq("a", "b"));
    assert!(str_eq("", ""));
}

#[test]
fn trim_matches_std() {
    for s in ["  hello  ", "\tx\n", "no-space", "", "   ", "a b", " mixed\tend\r\n"] {
        assert_eq!(trim(s), s.trim(), "trim differs on {:?}", s);
    }
}

#[test]
fn whitespace_tokens_match_std() {
    for s in [
        "Mem:     16000  8000   4000",
        "  leading and trailing  ",
        "",
        "one",
        "a\tb\nc\rd",
    ] {
        let ours = split_whitespace_tokens(s);
        let std_tokens: Vec<&str> = s.split_whitespace().collect();
        assert_eq!(ours, std_tokens, "tokens differ on {:?}", s);
    }
}

#[test]
fn split_char_matches_std() {
    for s in ["a/b", "a//b", "/", "", "1/2/3", "x"] {
        let ours = split_char(s, '/');
        let std_parts: Vec<&str> = s.split('/').collect();
        assert_eq!(ours, std_parts, "segments differ on {:?}", s);
    }
}

#[test]
fn padding_matches_std_format() {
    assert_eq!(pad_right("ab", 5), format!("{: <5}", "ab"));
    assert_eq!(pad_left("ab", 5), format!("{: >5}", "ab"));
    assert_eq!(pad_center("ab", 5), format!("{: ^5}", "ab"));
    assert_eq!(pad_center("ab", 7), format!("{: ^7}", "ab"));
    // Longer strings are kept whole.
    assert_eq!(pad_right("abcdef", 3), "abcdef");
    assert_eq!(pad_left("abcdef", 3), "abcdef");
    assert_eq!(pad_center("abcdef", 3), "abcdef");
}
