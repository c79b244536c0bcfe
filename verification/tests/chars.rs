use zugluft::chars::{
    ascii_lowercase, chars_of, contains_seq, decimal_digits, hex4, is_control_char,
    is_whitespace_char, parse_hex_u32, parse_u64, parse_usize, same_chars, starts_with_seq,
    trimmed,
};

fn v(s: &str) -> Vec<char> {
    s.chars().collect()
}

fn text(c: Vec<char>) -> String {
    c.into_iter().collect()
}

#[test]
fn unsigned_parsing_follows_str_parse() {
    for s in ["0", "42", "+7", "007", "", "+", "-1", "1 ", "x1", "18446744073709551615", "18446744073709551616"] {
        assert_eq!(parse_u64(&v(s)), s.parse::<u64>().ok(), "{s:?}");
        assert_eq!(parse_usize(&v(s)), s.parse::<usize>().ok(), "{s:?}");
    }
}

#[test]
fn hex_parsing_follows_from_str_radix() {
    for s in ["ff8000", "FFFFFFFF", "100000000", "+a", "", "g", "-1", "0"] {
        assert_eq!(parse_hex_u32(&v(s)), u32::from_str_radix(s, 16).ok(), "{s:?}");
    }
}

#[test]
fn number_formatting() {
    assert_eq!(text(decimal_digits(0)), "0");
    assert_eq!(text(decimal_digits(1234567890)), "1234567890");
    assert_eq!(text(decimal_digits(u64::MAX)), u64::MAX.to_string());
    assert_eq!(text(hex4(0x0a2f)), "0A2F");
    assert_eq!(text(hex4(0)), "0000");
    assert_eq!(text(hex4(0xbeef)), format!("{:04X}", 0xbeefu16));
}

#[test]
fn character_classes() {
    assert!(is_whitespace_char(' '));
    assert!(is_whitespace_char('\u{a0}'));
    assert!(is_whitespace_char('\u{3000}'));
    assert!(!is_whitespace_char('x'));
    assert!(is_control_char('\u{9f}'));
    assert!(!is_control_char('é'));
    for c in ['\t', '\n', ' ', '\u{85}', '\u{2028}', 'a', '\u{200b}'] {
        assert_eq!(is_whitespace_char(c), c.is_whitespace(), "{c:?}");
        assert_eq!(is_control_char(c), c.is_control(), "{c:?}");
    }
}

#[test]
fn sequence_helpers() {
    assert_eq!(chars_of("a°b"), vec!['a', '°', 'b']);
    assert_eq!(text(trimmed(&v("  Board \t"))), "Board");
    assert_eq!(text(trimmed(&v("   "))), "");
    assert_eq!(text(ascii_lowercase(&v("CPU Ä"))), "cpu Ä");
    assert!(contains_seq(&v("x Access is denied."), &v("Access is denied")));
    assert!(!contains_seq(&v("Access"), &v("Access is denied")));
    assert!(starts_with_seq(&v("calibration aborted"), &v("calibration")));
    assert!(!starts_with_seq(&v("cal"), &v("calibration")));
    assert!(same_chars(&v("fan"), &v("fan")));
    assert!(!same_chars(&v("fan"), &v("fans")));
}
