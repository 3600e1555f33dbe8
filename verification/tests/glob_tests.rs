use jj_hunk::glob::{glob_match, match_segment, normalize_patterns};

#[test]
fn double_star_crosses_directories() {
    assert!(glob_match("src/**/*.rs", "src/a/b.rs"));
    assert!(glob_match("src/**/*.rs", "src/lib.rs"));
    assert!(glob_match("src/**/*.rs", "src/a/b/c/d.rs"));
    assert!(!glob_match("src/**/*.rs", "other/a/b.rs"));
}

#[test]
fn single_star_does_not_cross_separator() {
    assert!(!glob_match("*.txt", "a/b.txt"));
    assert!(glob_match("*.txt", "b.txt"));
    assert!(glob_match("a/*.txt", "a/b.txt"));
}

#[test]
fn double_star_alone_matches_any_path() {
    assert!(glob_match("**", "a"));
    assert!(glob_match("**", "a/b/c.txt"));
    assert!(glob_match("**", ""));
    assert!(glob_match("**", "deep/nested/dir/file"));
}

#[test]
fn question_mark_matches_one_character() {
    assert!(match_segment("a?c", "abc"));
    assert!(!match_segment("a?c", "ac"));
    assert!(!match_segment("a?c", "abbc"));
}

#[test]
fn segment_wildcards_anchor_both_ends() {
    assert!(match_segment("ab*", "abcdef"));
    assert!(match_segment("*ef", "abcdef"));
    assert!(match_segment("a*e*", "abcdef"));
    assert!(!match_segment("b*", "abcdef"));
    assert!(match_segment("*", "anything"));
    assert!(match_segment("*", ""));
}

#[test]
fn leading_dot_slash_is_stripped() {
    assert!(glob_match("./src/*.rs", "src/lib.rs"));
    assert!(glob_match("src/*.rs", "./src/lib.rs"));
    assert!(glob_match("././a.txt", "a.txt"));
}

#[test]
fn empty_pattern_matches_only_empty_path() {
    assert!(glob_match("", ""));
    assert!(!glob_match("", "a"));
    assert!(!glob_match("a", ""));
}

#[test]
fn normalize_patterns_splits_and_trims() {
    let raw = vec![String::from(" a.rs , b.rs,, "), String::from("c/*.txt")];
    let out = normalize_patterns(&raw);
    assert_eq!(out, vec![String::from("a.rs"), String::from("b.rs"), String::from("c/*.txt")]);
}
