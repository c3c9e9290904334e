use termgba::text::{
    blank, chars_of, find_char, find_text, parse_unsigned, push_decimal, push_hexadecimal,
    push_padded_decimal, same_text, skip_digits, skip_spaces, space, split_text, string_of,
};

fn unsigned(s: &str, max: u64) -> Option<u64> {
    parse_unsigned(&chars_of(s), max)
}

fn decimal(n: u128) -> String {
    let mut out = "n=".to_string();
    push_decimal(&mut out, n);
    out
}

#[test]
fn characters_and_strings_convert_both_ways() {
    let text = "a\u{e9}\u{1F3AE}\"";
    assert_eq!(chars_of(text), text.chars().collect::<Vec<char>>());
    assert_eq!(string_of(&chars_of(text)), text);
    assert!(same_text(text, "a\u{e9}\u{1F3AE}\""));
    assert!(!same_text(text, "a"));
    assert!(!same_text("ab", "ac"));
}

#[test]
fn white_space_is_that_of_unicode() {
    for code in 0..=0x3100u32 {
        if let Some(c) = char::from_u32(code) {
            assert_eq!(space(c), c.is_whitespace(), "{code:x}");
        }
    }
    assert!(blank(&[]));
    assert!(blank(&chars_of("\t \u{2003}")));
    assert!(!blank(&chars_of(" x ")));
    assert_eq!(skip_spaces(&chars_of("x  y"), 1), 3);
}

#[test]
fn searching_finds_the_first_place() {
    let chars = chars_of("abcabc12x");
    assert_eq!(find_char(&chars, 0, 'c'), 2);
    assert_eq!(find_char(&chars, 3, 'c'), 5);
    assert_eq!(find_char(&chars, 0, 'z'), 9);
    assert_eq!(find_text(&chars, &chars_of("ca")), Some(2));
    assert_eq!(find_text(&chars, &chars_of("abc1")), Some(3));
    assert_eq!(find_text(&chars, &[]), Some(0));
    assert_eq!(find_text(&chars, &chars_of("abcabc12xy")), None);
    assert_eq!(skip_digits(&chars, 6), 8);
    assert_eq!(skip_digits(&chars, 0), 0);
}

#[test]
fn splitting_keeps_empty_pieces() {
    assert_eq!(split_text(&chars_of(",a,,b"), ','), vec!["", "a", "", "b"]);
    assert_eq!(split_text(&[], ','), vec![""]);
}

#[test]
fn numbers_are_written_and_read_back() {
    for n in [0, 7, 10, 65535, 18446744073709551615] {
        assert_eq!(decimal(n as u128), format!("n={n}"));
        assert_eq!(unsigned(&format!("{n}"), u64::MAX), Some(n));
    }
    assert_eq!(decimal(u128::MAX), format!("n={}", u128::MAX));
    let mut out = String::new();
    push_hexadecimal(&mut out, 0xBEEF, 6, false);
    push_hexadecimal(&mut out, 0xBEEF, 3, true);
    push_padded_decimal(&mut out, 42, 3);
    push_padded_decimal(&mut out, 1234, 3);
    push_padded_decimal(&mut out, 7, 0);
    assert_eq!(out, "00beefEEF042234");
}

#[test]
fn bad_numbers_are_refused() {
    assert_eq!(unsigned("+12", 100), Some(12));
    assert_eq!(unsigned("0012", 12), Some(12));
    for bad in ["", "+", "-1", "1 ", "1a", "++1", "\u{661}"] {
        assert_eq!(unsigned(bad, u64::MAX), None, "{bad}");
    }
    assert_eq!(unsigned("13", 12), None);
    assert_eq!(unsigned("99999999999999999999999999", u64::MAX), None);
}
