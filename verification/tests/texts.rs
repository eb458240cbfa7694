use xboxproxy::text::{
    contains_char, ends_with, joined, leading_field, lines_of, same_text, split_on, to_decimal,
    to_lower, trim, trim_end_char, trim_start_char,
};

#[test]
fn lower_case_is_ascii_only() {
    assert_eq!(to_lower("AbZ-\u{c4}"), "abz-\u{c4}");
}

#[test]
fn trimming() {
    assert_eq!(trim(" \t\u{2003}a b\n\u{85}"), "a b");
    assert_eq!(trim("  "), "");
    assert_eq!(trim_start_char("[[a[", '['), "a[");
    assert_eq!(trim_end_char("a.b..", '.'), "a.b");
}

#[test]
fn splitting() {
    assert_eq!(split_on("a,,b,", ','), vec!["a", "", "b", ""]);
    assert_eq!(split_on("", ','), vec![""]);
    for text in ["", "a", "a\n", "a\r\nb", "a\n\nb\r", "\n"] {
        let expected: Vec<String> = text.lines().map(|l| l.to_string()).collect();
        assert_eq!(lines_of(text), expected);
    }
    assert_eq!(leading_field("a;b c"), "a");
    assert_eq!(leading_field("abc"), "abc");
}

#[test]
fn comparing_and_joining() {
    assert!(same_text("a\u{e4}", "a\u{e4}"));
    assert!(!same_text("a", "ab"));
    assert!(ends_with("x.cdn", ".cdn"));
    assert!(!ends_with("cdn", ".cdn"));
    assert!(contains_char("a@b", '@'));
    assert!(!contains_char("", '@'));
    assert_eq!(joined("ab", "c"), "abc");
    assert_eq!(to_decimal(0), "0");
    assert_eq!(to_decimal(u64::MAX), "18446744073709551615");
}
