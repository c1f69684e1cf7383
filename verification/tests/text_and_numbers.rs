use shell_jobs::num::{parse_i32, parse_usize, push_decimal, push_signed_decimal};
use shell_jobs::text::{is_white_char, split_white_chars, trim_white_chars, chars_of, trim_quote_chars};

fn s(cs: &[char]) -> String {
    cs.iter().collect()
}

#[test]
fn parse_usize_agrees_with_std() {
    let cases = [
        "", "0", "7", "42", "+5", "+", "-", "-0", "12a", " 1", "1 ", "007",
        "18446744073709551615", "18446744073709551616", "99999999999999999999999", "٣",
    ];
    for c in cases.iter() {
        assert_eq!(parse_usize(c), c.parse::<usize>().ok(), "case {:?}", c);
    }
}

#[test]
fn parse_i32_agrees_with_std() {
    let cases = [
        "", "0", "-0", "+0", "15", "-15", "+15", "--5", "-+5", "+-5", "-", "+",
        "2147483647", "2147483648", "-2147483648", "-2147483649", "1e3", "12345678901",
    ];
    for c in cases.iter() {
        assert_eq!(parse_i32(c), c.parse::<i32>().ok(), "case {:?}", c);
    }
}

#[test]
fn decimal_rendering_matches_display() {
    for n in [0u64, 1, 9, 10, 99, 100, 12345, u64::MAX].iter() {
        let mut out = String::from("x");
        push_decimal(&mut out, *n);
        assert_eq!(out, format!("x{}", n));
    }
    for v in [0i32, -1, 7, -2147483648, 2147483647, 31337].iter() {
        let mut out = String::new();
        push_signed_decimal(&mut out, *v);
        assert_eq!(out, v.to_string());
    }
}

#[test]
fn parse_reads_back_rendering() {
    for n in [0usize, 3, 10, 4096, usize::MAX].iter() {
        let mut out = String::new();
        push_decimal(&mut out, *n as u64);
        assert_eq!(parse_usize(&out), Some(*n));
    }
    for v in [i32::MIN, -42, 0, 42, i32::MAX].iter() {
        let mut out = String::new();
        push_signed_decimal(&mut out, *v);
        assert_eq!(parse_i32(&out), Some(*v));
    }
}

#[test]
fn white_space_agrees_with_std() {
    for u in 0u32..0x3100 {
        if let Some(c) = char::from_u32(u) {
            assert_eq!(is_white_char(c), c.is_whitespace(), "U+{:04X}", u);
        }
    }
    for c in ['\u{feff}', '\u{200b}', '\u{1680}', '\u{3000}', 'a'].iter() {
        assert_eq!(is_white_char(*c), c.is_whitespace());
    }
}

#[test]
fn trim_and_split_agree_with_std() {
    let cases = ["", "   ", "  sleep 5 & ", "a\tb\u{3000}c\u{a0}", "\u{2003}x\u{2003}", "one"];
    for c in cases.iter() {
        let cs = chars_of(c);
        assert_eq!(s(&trim_white_chars(&cs)), c.trim());
        let words: Vec<String> = split_white_chars(&cs).iter().map(|w| s(w)).collect();
        let expected: Vec<String> = c.split_whitespace().map(|w| w.to_string()).collect();
        assert_eq!(words, expected);
    }
}

#[test]
fn split_words_are_nonempty_without_white_space() {
    let cs = chars_of("  a  bb\t\tccc \n d ");
    let words = split_white_chars(&cs);
    assert_eq!(words.len(), 4);
    for w in words.iter() {
        assert!(!w.is_empty());
        assert!(w.iter().all(|c| !c.is_whitespace()));
    }
}

#[test]
fn quote_trimming_agrees_with_std() {
    let cases = ["\"ls\"", "\"\"\"", "'a'", "\"'a'\"", "x\"y", ""];
    for c in cases.iter() {
        let cs = chars_of(c);
        assert_eq!(s(&trim_quote_chars(&cs, false)), c.trim_matches('"'));
        assert_eq!(s(&trim_quote_chars(&cs, true)), c.trim_matches(|x| x == '"' || x == '\''));
    }
}
