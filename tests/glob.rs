use vasu::glob::{glob_match, matches_folded};

fn chars(s: &str) -> Vec<char> {
    s.chars().collect()
}

#[test]
fn star_matches_everything() {
    assert!(glob_match("*", "anything.txt"));
    assert!(glob_match("*", ""));
}

#[test]
fn without_star_is_substring_ignoring_case() {
    assert!(glob_match("main", "my_main.c"));
    assert!(glob_match("MAIN", "xMainx"));
    assert!(glob_match("", "abc"));
    assert!(!glob_match("mian", "main.rs"));
}

#[test]
fn suffix_patterns() {
    assert!(glob_match("*.rs", "main.rs"));
    assert!(glob_match("*.RS", "Main.rs"));
    assert!(!glob_match("*.rs", "main.rsx"));
    assert!(!glob_match("*.rs", "main.txt"));
}

#[test]
fn prefix_patterns() {
    assert!(glob_match("te*", "test"));
    assert!(glob_match("Te*", "TEMP"));
    assert!(!glob_match("te*", "ate"));
}

#[test]
fn inner_star_patterns() {
    assert!(glob_match("a*b", "acb"));
    assert!(!glob_match("a*b", "acbd"));
    assert!(glob_match("a*b", "abxb"));
    assert!(glob_match("*a*", "bab"));
    assert!(!glob_match("*a*", "bbb"));
    assert!(glob_match("a**c", "abc"));
}

#[test]
fn folded_matching_is_case_sensitive() {
    assert!(matches_folded(&chars("*.rs"), &chars("lib.rs")));
    assert!(!matches_folded(&chars("*.rs"), &chars("LIB.RS")));
    assert!(matches_folded(&chars("ab"), &chars("xaby")));
    assert!(!matches_folded(&chars("x*"), &chars("yx")));
}
