use hls2dash::text::{
    before_char, contains_char, ends_with, is_text_less, is_white_space, lines_of, same_text,
    starts_with, strip_prefix, strip_suffix, trim,
};

#[test]
fn white_space_is_the_unicode_property() {
    for code in 0u32..=0x10ffff {
        if let Some(c) = char::from_u32(code) {
            assert_eq!(is_white_space(c), c.is_whitespace(), "U+{code:04X}");
        }
    }
}

#[test]
fn trimming_removes_white_space_at_both_ends() {
    assert_eq!(trim("  a b\t\r\n"), "a b");
    assert_eq!(trim("\u{3000}x\u{2003}"), "x");
    assert_eq!(trim(" \n "), "");
    assert_eq!(trim(""), "");
}

#[test]
fn lines_are_split_at_line_feeds_and_trimmed() {
    assert_eq!(lines_of("a\r\n b \n\nc"), vec!["a", "b", "", "c"]);
    assert_eq!(lines_of(""), vec![""]);
    assert_eq!(lines_of("\n"), vec!["", ""]);
}

#[test]
fn prefixes_and_suffixes() {
    assert!(starts_with("seg_1.ts", "seg_"));
    assert!(!starts_with("se", "seg_"));
    assert!(ends_with("seg_1.ts", ".ts"));
    assert!(!ends_with("ts", ".ts"));
    assert_eq!(strip_prefix("seg_12", "seg_"), Some("12"));
    assert_eq!(strip_prefix("sig_12", "seg_"), None);
    assert_eq!(strip_suffix("12.ts", ".ts"), Some("12"));
    assert_eq!(strip_suffix("12.tS", ".ts"), None);
    assert_eq!(strip_prefix("ünï", "ün"), Some("ï"));
    assert!(same_text("a", "a"));
    assert!(!same_text("a", "ab"));
}

#[test]
fn characters_are_found() {
    assert!(contains_char("a/b", '/'));
    assert!(!contains_char("ab", '/'));
    assert_eq!(before_char("2.0,title", ','), "2.0");
    assert_eq!(before_char("2.0", ','), "2.0");
    assert_eq!(before_char(",x", ','), "");
}

#[test]
fn text_order_is_that_of_strings() {
    let texts = ["", "a", "ab", "b", "B", "cctv1", "cctv10", "cctv2", "-", "_", "\u{e9}"];
    for a in texts {
        for b in texts {
            assert_eq!(is_text_less(a, b), a < b, "{a} {b}");
        }
    }
}
