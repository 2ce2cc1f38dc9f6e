use claude_idr::text::parse_u64;
use claude_idr::text::split_char;
use claude_idr::text::str_eq;
use claude_idr::text::str_lines;
use claude_idr::text::str_lt;
use claude_idr::text::trim;
use claude_idr::text::truncate_chars;

#[test]
fn trim_removes_leading_and_trailing_whitespace() {
    assert_eq!(trim("  /a/b.md \n"), "/a/b.md");
    assert_eq!(trim("x"), "x");
    assert_eq!(trim("   "), "");
    assert_eq!(trim(""), "");
}

#[test]
fn truncate_chars_cuts_at_character_count() {
    assert_eq!(truncate_chars("hello", 3), "hel");
    assert_eq!(truncate_chars("hello", 10), "hello");
    assert_eq!(truncate_chars("あいうえお", 2), "あい");
}

#[test]
fn split_char_splits_and_keeps_empty_segments() {
    assert_eq!(split_char("a,b,,c", ','), vec!["a", "b", "", "c"]);
    assert_eq!(split_char("", ','), vec![""]);
    assert_eq!(split_char("abc", ','), vec!["abc"]);
}

#[test]
fn str_lines_matches_line_semantics() {
    assert_eq!(str_lines("a\nb\n"), vec!["a", "b"]);
    assert_eq!(str_lines("a\r\nb"), vec!["a", "b"]);
    assert_eq!(str_lines(""), Vec::<String>::new());
    assert_eq!(str_lines("a\n\nb"), vec!["a", "", "b"]);
}

#[test]
fn str_lt_orders_lexicographically() {
    assert!(str_lt("a", "b"));
    assert!(str_lt("a", "ab"));
    assert!(!str_lt("b", "ab"));
    assert!(!str_lt("a", "a"));
}

#[test]
fn str_eq_compares_characters() {
    assert!(str_eq("abc", "abc"));
    assert!(!str_eq("abc", "abd"));
    assert!(!str_eq("abc", "ab"));
}

#[test]
fn parse_u64_accepts_digits_and_rejects_the_rest() {
    assert_eq!(parse_u64("0"), Some(0));
    assert_eq!(parse_u64("18446744073709551615"), Some(u64::MAX));
    assert_eq!(parse_u64("18446744073709551616"), None);
    assert_eq!(parse_u64(""), None);
    assert_eq!(parse_u64("-1"), None);
    assert_eq!(parse_u64("1a"), None);
}
