use skill_manager_mcp::fields::{contains_text, split_on, split_trimmed, starts_with, trim};
use skill_manager_mcp::query::sanitize_fts_query;
use skill_manager_mcp::text::{concat2, concat3, i64_text, like_infix, owned, str_eq, str_lt, u64_text};

#[test]
fn sanitize_removes_operators_and_special_characters() {
    assert_eq!(sanitize_fts_query("a&&b||c"), "abc");
    assert_eq!(sanitize_fts_query("\"hello\" (world): ^x-y+z=1>0<2~3*"), "hello world xyz1023");
    assert_eq!(sanitize_fts_query("plain text"), "plain text");
    assert_eq!(sanitize_fts_query(""), "");
    assert_eq!(sanitize_fts_query("a&b|c"), "a&b|c");
}

#[test]
fn like_infix_is_case_insensitive_for_ascii() {
    assert!(like_infix("PDF", "convert pdf files"));
    assert!(like_infix("", "anything"));
    assert!(!like_infix("word", "excel sheets"));
    assert!(like_infix("a%c", "abc"));
    assert!(like_infix("a_c", "xxabcxx"));
}

#[test]
fn string_helpers_build_and_compare() {
    assert_eq!(owned("abc"), "abc");
    assert_eq!(concat2("ab", "cd"), "abcd");
    assert_eq!(concat3("a", "-", "b"), "a-b");
    assert!(str_eq("x", "x"));
    assert!(!str_eq("x", "y"));
    assert!(str_lt("abc", "abd"));
    assert!(str_lt("ab", "abc"));
    assert!(!str_lt("b", "abc"));
}

#[test]
fn numbers_are_written_in_decimal() {
    assert_eq!(u64_text(0), "0");
    assert_eq!(u64_text(1234567890), "1234567890");
    assert_eq!(u64_text(u64::MAX), "18446744073709551615");
    assert_eq!(i64_text(-42), "-42");
    assert_eq!(i64_text(i64::MIN), "-9223372036854775808");
    assert_eq!(i64_text(7), "7");
}

#[test]
fn trim_removes_unicode_whitespace_at_both_ends() {
    assert_eq!(trim("  a b \t\r\n"), "a b");
    assert_eq!(trim("\u{3000}x\u{a0}"), "x");
    assert_eq!(trim("   "), "");
    assert_eq!(trim("x"), "x");
}

#[test]
fn split_keeps_empty_pieces() {
    assert_eq!(split_on("a,b,,c", ','), vec!["a", "b", "", "c"]);
    assert_eq!(split_on("", ','), vec![""]);
    assert_eq!(split_on(",", ','), vec!["", ""]);
    assert_eq!(split_trimmed(" rust , web ,x", ','), vec!["rust", "web", "x"]);
}

#[test]
fn prefix_and_infix_tests() {
    assert!(starts_with("listen_addr = 1", "listen_addr"));
    assert!(!starts_with("list", "listen"));
    assert!(contains_text("use_tray = true", "true"));
    assert!(!contains_text("use_tray = false", "true"));
    assert!(contains_text("abc", ""));
}
