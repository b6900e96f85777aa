use glorious_auto_polling_rate::text::{
    chars_of, decimal_string, encode_utf16, is_space_char, join_strings, lower_char_exec,
    parse_u32, set_wide_field, string_of, trim_chars, wide,
};

#[test]
fn decimal_matches_to_string() {
    for n in [0u64, 7, 10, 125, 4000, 4294967295, u64::MAX] {
        assert_eq!(decimal_string(n), n.to_string());
    }
}

#[test]
fn parse_matches_std() {
    for s in ["0", "+5", "", "+", "-", "-1", "4294967295", "4294967296", "007", "12a", " 1", "٣", "99999999999999999999"] {
        assert_eq!(parse_u32(s), s.parse::<u32>().ok(), "input {:?}", s);
    }
}

#[test]
fn written_numbers_read_back() {
    for n in [0u32, 1, 125, 65536, u32::MAX] {
        assert_eq!(parse_u32(&decimal_string(n as u64)), Some(n));
    }
}

#[test]
fn whitespace_matches_std() {
    for c in ['\t', '\n', '\r', ' ', '\u{85}', '\u{a0}', '\u{2003}', '\u{3000}', 'a', '\u{200b}', '#'] {
        assert_eq!(is_space_char(c), c.is_whitespace(), "char {:?}", c);
    }
    let v = chars_of(" \u{2028} x y\t\n");
    assert_eq!(string_of(&trim_chars(&v)), "x y");
    assert_eq!(string_of(&trim_chars(&chars_of("   "))), "");
}

#[test]
fn lower_case_is_ascii_only() {
    assert_eq!(lower_char_exec('Q'), 'q');
    assert_eq!(lower_char_exec('É'), 'É');
}

#[test]
fn utf16_matches_std() {
    let text = "a😀é";
    assert_eq!(encode_utf16(text), text.encode_utf16().collect::<Vec<u16>>());
    assert_eq!(wide("ab"), vec![0x61, 0x62, 0]);
}

#[test]
fn wide_field_is_always_terminated() {
    let mut field = [7u16; 4];
    set_wide_field(&mut field, "hello");
    assert_eq!(field, [0x68, 0x65, 0x6c, 0]);
    let mut field = [7u16; 6];
    set_wide_field(&mut field, "hi");
    assert_eq!(field, [0x68, 0x69, 0, 0, 0, 0]);
    let mut empty: [u16; 0] = [];
    set_wide_field(&mut empty, "x");
}

#[test]
fn join_puts_the_separator_between() {
    let parts = vec!["a".to_string(), "b".to_string(), "c".to_string()];
    assert_eq!(join_strings(&parts, "\n"), "a\nb\nc");
    assert_eq!(join_strings(&Vec::new(), ", "), "");
}
