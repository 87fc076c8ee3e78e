use json_tree_viewer::text::{find_first, remove_occurrences, str_contains};

#[test]
fn contains_finds_substrings() {
    assert!(str_contains("application/json", "json"));
    assert!(str_contains("json", "json"));
    assert!(!str_contains("text/plain", "json"));
    assert!(!str_contains("jso", "json"));
    assert!(str_contains("anything", ""));
}

#[test]
fn find_first_reports_the_earliest_match() {
    assert_eq!(find_first("application/json", "json"), Some(12));
    assert_eq!(find_first("abab", "ab"), Some(0));
    assert_eq!(find_first("text/plain", "json"), None);
}

#[test]
fn remove_occurrences_scans_left_to_right_without_rescanning() {
    assert_eq!(remove_occurrences("theme dark", "dark"), "theme ");
    assert_eq!(remove_occurrences("darkdark", "dark"), "");
    // The removal does not re-scan text it has already produced.
    assert_eq!(remove_occurrences("dadarkrk", "dark"), "dark");
    assert_eq!(remove_occurrences("plain", "dark"), "plain");
}
