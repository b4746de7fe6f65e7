use tilt_logs::resolver::{contains_pattern, resolve, MatchResult};

fn names(items: &[&str]) -> Vec<String> {
    items.iter().map(|s| s.to_string()).collect()
}

#[test]
fn substring_several_matches_are_ambiguous() {
    let list = names(&["web-1", "web-2", "db"]);
    assert_eq!(
        resolve("web", &list, false),
        MatchResult::Ambiguous(names(&["web-1", "web-2"]))
    );
}

#[test]
fn substring_single_match_resolves() {
    let list = names(&["web-1", "web-2", "db"]);
    assert_eq!(resolve("db", &list, false), MatchResult::Resolved("db".to_string()));
}

#[test]
fn substring_no_match_is_not_found() {
    let list = names(&["web-1", "web-2", "db"]);
    assert_eq!(resolve("cache", &list, false), MatchResult::NotFound);
}

#[test]
fn exact_match_resolves() {
    let list = names(&["web-1", "web-2"]);
    assert_eq!(resolve("web-1", &list, true), MatchResult::Resolved("web-1".to_string()));
}

#[test]
fn empty_list_is_not_found_in_both_modes() {
    let list: Vec<String> = Vec::new();
    for p in ["", "web", "db"] {
        assert_eq!(resolve(p, &list, false), MatchResult::NotFound);
        assert_eq!(resolve(p, &list, true), MatchResult::NotFound);
    }
}

#[test]
fn exact_mode_never_matches_a_mere_substring() {
    let list = names(&["web-1", "web-2"]);
    assert_eq!(resolve("web", &list, true), MatchResult::NotFound);
    assert_eq!(resolve("web-2", &list, true), MatchResult::Resolved("web-2".to_string()));
}

#[test]
fn exact_mode_with_one_full_and_one_partial_match() {
    let list = names(&["api", "api-worker"]);
    assert_eq!(resolve("api", &list, true), MatchResult::Resolved("api".to_string()));
    assert_eq!(
        resolve("api", &list, false),
        MatchResult::Ambiguous(names(&["api", "api-worker"]))
    );
}

#[test]
fn substring_match_is_case_sensitive() {
    let list = names(&["Web-1", "db"]);
    assert_eq!(resolve("web", &list, false), MatchResult::NotFound);
    assert_eq!(resolve("Web", &list, false), MatchResult::Resolved("Web-1".to_string()));
}

#[test]
fn substring_match_anywhere_in_name() {
    let list = names(&["proj_web_1", "proj_db_1"]);
    assert_eq!(resolve("db_", &list, false), MatchResult::Resolved("proj_db_1".to_string()));
    assert_eq!(resolve("_1", &list, false), MatchResult::Ambiguous(list.clone()));
}

#[test]
fn empty_pattern_matches_every_name() {
    let list = names(&["a", "b"]);
    assert_eq!(resolve("", &list, false), MatchResult::Ambiguous(list.clone()));
    let one = names(&["only"]);
    assert_eq!(resolve("", &one, false), MatchResult::Resolved("only".to_string()));
}

#[test]
fn resolving_twice_gives_the_same_result() {
    let list = names(&["web-1", "web-2", "db"]);
    for (p, exact) in [("web", false), ("db", false), ("cache", false), ("web-1", true)] {
        assert_eq!(resolve(p, &list, exact), resolve(p, &list, exact));
    }
}

#[test]
fn ambiguous_keeps_listing_order_and_only_matches() {
    let list = names(&["web-3", "db", "web-1", "cache", "web-2"]);
    assert_eq!(
        resolve("web", &list, false),
        MatchResult::Ambiguous(names(&["web-3", "web-1", "web-2"]))
    );
}

#[test]
fn non_ascii_names_match_by_characters() {
    let list = names(&["café-1", "cafe-2"]);
    assert_eq!(resolve("é", &list, false), MatchResult::Resolved("café-1".to_string()));
}

#[test]
fn contains_pattern_cases() {
    assert!(contains_pattern("web-1", "web"));
    assert!(contains_pattern("web-1", "-1"));
    assert!(contains_pattern("web-1", "web-1"));
    assert!(contains_pattern("web-1", ""));
    assert!(!contains_pattern("web-1", "web-12"));
    assert!(!contains_pattern("", "a"));
    assert!(!contains_pattern("abab", "bb"));
    assert!(contains_pattern("aab", "ab"));
}
