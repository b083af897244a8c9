use minigrep::find_from;
use minigrep::line_contains;
use minigrep::split_lines;

#[test]
fn contains_exact() {
    assert!(line_contains("productive", "duct", false));
    assert!(!line_contains("productive", "DUCT", false));
    assert!(!line_contains("pro", "productive", false));
}

#[test]
fn contains_ignoring_case() {
    assert!(line_contains("proDUCTive", "duct", true));
    assert!(line_contains("productive", "DUCT", true));
    assert!(!line_contains("productive", "dusk", true));
}

#[test]
fn contains_empty_query() {
    assert!(line_contains("productive", "", false));
    assert!(line_contains("", "", true));
}

#[test]
fn find_first_occurrence() {
    assert_eq!(Some(0), find_from("abcab", "ab", 0, false));
    assert_eq!(Some(3), find_from("abcab", "ab", 1, false));
    assert_eq!(None, find_from("abcab", "ab", 4, false));
    assert_eq!(None, find_from("abcab", "zz", 0, false));
}

#[test]
fn find_ignoring_case() {
    assert_eq!(Some(1), find_from("xAbY", "ab", 0, true));
    assert_eq!(None, find_from("xAbY", "ab", 2, true));
}

#[test]
fn find_empty_query_matches_everywhere() {
    assert_eq!(Some(0), find_from("abc", "", 0, false));
    assert_eq!(Some(2), find_from("abc", "", 2, false));
    assert_eq!(Some(3), find_from("abc", "", 3, false));
}

#[test]
fn splits_on_newlines() {
    assert_eq!(vec!["a", "b"], split_lines("a\nb"));
    assert_eq!(vec!["a", "b"], split_lines("a\nb\n"));
    assert_eq!(vec!["", ""], split_lines("\n\n"));
    assert_eq!(vec!["", "a"], split_lines("\na"));
    assert!(split_lines("").is_empty());
}
