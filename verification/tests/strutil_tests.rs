use dashboard_core::strutil::begins_with;
use dashboard_core::strutil::clip_chars;
use dashboard_core::strutil::contains_sub;
use dashboard_core::strutil::split_on_char;
use dashboard_core::strutil::str_eq;
use dashboard_core::strutil::strip_char_ends;
use dashboard_core::strutil::trim_ws;
use dashboard_core::strutil::u64_to_string;

#[test]
fn substring_search_finds_infixes() {
    assert!(contains_sub("hello world", "lo wo"));
    assert!(contains_sub("hello", "hello"));
    assert!(contains_sub("hello", ""));
    assert!(!contains_sub("hello", "world"));
    assert!(!contains_sub("he", "hello"));
}

#[test]
fn prefix_and_equality_tests_compare_characters() {
    assert!(begins_with("terminal-12", "terminal-"));
    assert!(!begins_with("term", "terminal-"));
    assert!(str_eq("abc", "abc"));
    assert!(!str_eq("abc", "abd"));
    assert!(!str_eq("abc", "ab"));
}

#[test]
fn clipping_keeps_leading_characters() {
    assert_eq!(clip_chars("hello", 10), "hello");
    assert_eq!(clip_chars("hello", 3), "hel");
    assert_eq!(clip_chars("", 3), "");
}

#[test]
fn decimal_rendering_matches_the_number() {
    assert_eq!(u64_to_string(0), "0");
    assert_eq!(u64_to_string(7), "7");
    assert_eq!(u64_to_string(105), "105");
    assert_eq!(u64_to_string(98765), "98765");
}

#[test]
fn trimming_and_stripping_touch_only_the_ends() {
    assert_eq!(trim_ws("  padded \t\n"), "padded");
    assert_eq!(trim_ws("inner  space"), "inner  space");
    assert_eq!(trim_ws("   "), "");
    assert_eq!(strip_char_ends("\"quoted\"", '"'), "quoted");
    assert_eq!(strip_char_ends("''double''", '\''), "double");
    assert_eq!(strip_char_ends("no quotes", '"'), "no quotes");
}

#[test]
fn splitting_preserves_every_piece() {
    let parts = split_on_char("a\nb\n\nc", '\n');
    assert_eq!(parts, vec!["a", "b", "", "c"]);
    let single = split_on_char("plain", '\n');
    assert_eq!(single, vec!["plain"]);
    let trailing = split_on_char("x\n", '\n');
    assert_eq!(trailing, vec!["x", ""]);
}
