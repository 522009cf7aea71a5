use dashboard_core::search::SEARCH_SNIPPET_CHARS;
use dashboard_core::search::build_search_pattern;
use dashboard_core::search::replace_in_content;
use dashboard_core::search::search_match;
use dashboard_core::search::search_snippet;

#[test]
fn queries_match_names_and_contents_case_insensitively() {
    assert!(search_match("NOTES.md", "", "notes"));
    assert!(search_match("notes.md", "Remember the MILK", "milk"));
    assert!(!search_match("notes.md", "nothing here", "milk"));
    assert!(search_match("ReadMe.MD", "", "readme"));
}

#[test]
fn snippets_clip_long_contents() {
    assert_eq!(search_snippet("short"), "short");
    let long: String = std::iter::repeat('x').take(SEARCH_SNIPPET_CHARS + 50).collect();
    let clipped = search_snippet(&long);
    assert_eq!(clipped.chars().count(), SEARCH_SNIPPET_CHARS);
}

#[test]
fn patterns_escape_literals_and_wrap_words() {
    assert_eq!(build_search_pattern("a.b", false, false), "a\\.b");
    assert_eq!(build_search_pattern("a.b", true, false), "\\ba\\.b\\b");
    assert_eq!(build_search_pattern("a.b", false, true), "a.b");
    assert_eq!(build_search_pattern("a.b", true, true), "\\b(?:a.b)\\b");
}

#[test]
fn replacing_all_counts_every_match() {
    let out = replace_in_content("aaa".to_string(), "a", "b", true, false, false, true);
    assert!(out.result.success);
    assert_eq!(out.result.replaced_count, 3);
    assert_eq!(out.result.new_content, "bbb");
    assert!(out.changed);
}

#[test]
fn replacing_first_touches_one_match() {
    let out = replace_in_content("aaa".to_string(), "a", "b", true, false, false, false);
    assert!(out.result.success);
    assert_eq!(out.result.replaced_count, 1);
    assert_eq!(out.result.new_content, "baa");
    assert!(out.changed);
}

#[test]
fn no_match_leaves_the_content_untouched() {
    let out = replace_in_content("xyz".to_string(), "a", "b", true, false, false, true);
    assert!(out.result.success);
    assert_eq!(out.result.replaced_count, 0);
    assert_eq!(out.result.new_content, "xyz");
    assert!(!out.changed);
}

#[test]
fn case_folding_and_literal_dots_behave() {
    // Case-insensitive literal search: the dot is literal, the letters fold.
    let out = replace_in_content("A.a x Aqa".to_string(), "a.A", "z", false, false, false, true);
    assert!(out.result.success);
    assert_eq!(out.result.replaced_count, 1);
    assert_eq!(out.result.new_content, "z x Aqa");
}

#[test]
fn invalid_patterns_fail_the_run() {
    let out = replace_in_content("text".to_string(), "(unclosed", "z", true, false, true, true);
    assert!(!out.result.success);
    assert_eq!(out.result.replaced_count, 0);
    assert!(!out.changed);
    let message = out.result.error.unwrap();
    assert!(message.starts_with("Invalid search pattern: "));
}

#[test]
fn identity_replacements_report_no_change() {
    let out = replace_in_content("aaa".to_string(), "a", "a", true, false, false, true);
    assert!(out.result.success);
    assert_eq!(out.result.replaced_count, 3);
    assert!(!out.changed);
}

#[test]
fn whole_word_mode_respects_boundaries() {
    let out = replace_in_content(
        "cat catalog cat".to_string(),
        "cat",
        "dog",
        true,
        true,
        false,
        true,
    );
    assert!(out.result.success);
    assert_eq!(out.result.replaced_count, 2);
    assert_eq!(out.result.new_content, "dog catalog dog");
}
