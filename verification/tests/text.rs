//! Text primitives against std.

use aetheris::text::{
    chars_of, contains_text, copy_text, decimal_text, hex8, is_blank_text, is_space_char, join2,
    lower_char, parse_number, same_text, split_on, text_of, to_ascii_lowercase, trim, upper_char,
};

const SAMPLES: [&str; 9] = [
    "",
    "abc",
    "  padded\t\n",
    "\u{3000}wide\u{a0}",
    "MiXeD ÄÖ ßẞ",
    "a+b++c",
    "+",
    "中文 text",
    "\u{2028}\u{85}",
];

#[test]
fn agrees_with_std_on_texts() {
    for s in SAMPLES {
        assert_eq!(to_ascii_lowercase(s), s.to_ascii_lowercase());
        assert_eq!(trim(s), s.trim());
        assert_eq!(is_blank_text(s), s.trim().is_empty());
        assert_eq!(split_on(s, '+'), s.split('+').collect::<Vec<_>>());
        assert_eq!(chars_of(s), s.chars().collect::<Vec<_>>());
        assert_eq!(copy_text(s), s);
        for t in SAMPLES {
            assert_eq!(same_text(s, t), s == t);
            assert_eq!(contains_text(s, t), s.contains(t));
            assert_eq!(join2(s, t), format!("{s}{t}"));
        }
    }
}

#[test]
fn agrees_with_std_on_characters() {
    for code in 0..=0x10ffffu32 {
        if let Some(c) = char::from_u32(code) {
            assert_eq!(is_space_char(c), c.is_whitespace(), "{code:x}");
        }
    }
    for code in 0..=0x17fu32 {
        let c = char::from_u32(code).unwrap();
        assert_eq!(lower_char(c), c.to_ascii_lowercase());
        assert_eq!(upper_char(c), c.to_ascii_uppercase());
    }
}

#[test]
fn agrees_with_std_on_numbers() {
    for s in ["", "+", "+0", "7", "007", "-1", "1 ", "255", "256", "4294967295", "4294967296", "x"] {
        assert_eq!(parse_number(s, 255), s.parse::<u8>().ok().map(u64::from), "{s}");
        assert_eq!(parse_number(s, 0xffff_ffff), s.parse::<u32>().ok().map(u64::from), "{s}");
        assert_eq!(parse_number(s, u64::MAX), s.parse::<u64>().ok(), "{s}");
    }
    assert_eq!(parse_number("18446744073709551615", u64::MAX), Some(u64::MAX));
    assert_eq!(parse_number("18446744073709551616", u64::MAX), None);
    assert_eq!(parse_number("3", 2), None);
    for n in [0u64, 9, 10, 99, 100, 12345, u64::MAX] {
        assert_eq!(decimal_text(n), n.to_string());
    }
    for n in [0u32, 0xc0000022, 0xffffffff, 0xabc] {
        assert_eq!(hex8(n), format!("{n:08X}"));
    }
}

#[test]
fn parts_of_texts() {
    let chars = chars_of("hello");
    assert_eq!(text_of(&chars, 1, 3), "el");
    assert_eq!(text_of(&chars, 2, 2), "");
}
