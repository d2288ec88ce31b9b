use vmm::text::{chars_of, decode, parse_u64, push_decimal, same_text, trim_bounds, white};

#[test]
fn white_space_is_that_of_unicode() {
    for u in 0..=0x10_FFFFu32 {
        if let Some(c) = char::from_u32(u) {
            assert_eq!(white(c), c.is_whitespace(), "{u:#x}");
        }
    }
}

#[test]
fn trimming_agrees_with_str() {
    for s in ["", "  ", "a", " a ", "\u{2003}a b\t\n", "a\u{200b} "] {
        let chars = chars_of(s);
        let (from, to) = trim_bounds(&chars);
        let text: String = chars[from..to].iter().collect();
        assert_eq!(text, s.trim());
    }
}

#[test]
fn parsing_agrees_with_str() {
    for s in [
        "", "+", "-", "0", "+0", "-0", "007", "18446744073709551615", "18446744073709551616",
        "99999999999999999999", "1a", "++1", "1 ", "\u{0661}",
    ] {
        let chars = chars_of(s);
        assert_eq!(parse_u64(&chars, 0, chars.len()), s.parse::<u64>().ok(), "{s:?}");
    }
}

#[test]
fn numbers_are_written_in_decimal() {
    for n in [0u64, 9, 10, 4096, 12288, u64::MAX] {
        let mut out = b"x".to_vec();
        push_decimal(&mut out, n);
        assert_eq!(String::from_utf8(out).unwrap(), format!("x{n}"));
    }
}

#[test]
fn only_utf8_decodes() {
    assert_eq!(decode("a\u{e9}\u{1f600}".as_bytes()), Some(vec!['a', '\u{e9}', '\u{1f600}']));
    assert_eq!(decode(&[0xC0, 0x80]), None);
    assert_eq!(decode(&[]), Some(vec![]));
}

#[test]
fn texts_are_compared_by_character() {
    assert!(same_text("create", "create"));
    assert!(!same_text("create", "creat"));
    assert!(!same_text("create", "creatE"));
    assert!(same_text("", ""));
}
