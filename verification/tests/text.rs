use sweepy::text::{is_whitespace, parse_i64, split_by, trim};

#[test]
fn trims_unicode_white_space_on_both_ends() {
    assert_eq!(trim("  target \n"), "target");
    assert_eq!(trim("\t\u{a0}a b\u{3000}"), "a b");
    assert_eq!(trim("   "), "");
    assert_eq!(trim(""), "");
    assert_eq!(trim("x"), "x");
    for c in ['\u{85}', '\u{2000}', '\u{200a}', '\u{2028}', '\u{205f}', '\u{b}', '\u{c}'] {
        assert!(is_whitespace(c));
        assert_eq!(c.is_whitespace(), is_whitespace(c));
    }
    for c in ['a', '\u{200b}', '_', '\u{0}'] {
        assert!(!is_whitespace(c));
        assert_eq!(c.is_whitespace(), is_whitespace(c));
    }
}

#[test]
fn trim_agrees_with_std() {
    for s in [" a ", "\u{1680}x\u{2029}", "a\u{200b}", "  \t", "ab  cd"] {
        assert_eq!(trim(s), s.trim());
    }
}

#[test]
fn splits_at_every_separator() {
    assert_eq!(split_by("a,b", ','), vec!["a", "b"]);
    assert_eq!(split_by("a,,b,", ','), vec!["a", "", "b", ""]);
    assert_eq!(split_by("", ','), vec![""]);
    assert_eq!(split_by("abc", ','), vec!["abc"]);
    assert_eq!(split_by("/x/y", '/'), vec!["", "x", "y"]);
}

#[test]
fn parses_i64_as_std_does() {
    for s in ["0", "42", "+7", "-7", "9223372036854775807", "-9223372036854775808", "", "+", "-", "1a", "9223372036854775808", "-9223372036854775809", " 1", "٣"] {
        assert_eq!(parse_i64(s), s.parse::<i64>().ok(), "{s:?}");
    }
}
