use minigrep::search;
use minigrep::search_case_insensitive;

#[test]
fn test_one_result() {
    let query = "duct";
    let content = "\
Rust:
safe, fast, productive.
Pick three.";
    assert_eq!(vec!["safe, fast, productive."], search(query, content));
}

#[test]
fn test_case_insensitive() {
    let query = "duct";
    let content = "\
Rust:
safe, fast, productive.
Pick three.";
    assert_eq!(vec!["safe, fast, productive."], search_case_insensitive(query, content));
}

#[test]
fn case_insensitive_query_in_other_case() {
    let query = "DUCT";
    let content = "\
Rust:
safe, fast, productive.
Pick three.";
    assert_eq!(vec!["safe, fast, productive."], search_case_insensitive(query, content));
}

#[test]
fn case_sensitive_rejects_other_case() {
    let query = "DUCT";
    let content = "\
Rust:
safe, fast, productive.
Pick three.";
    assert_eq!(Vec::<&str>::new(), search(query, content));
}

#[test]
fn case_insensitive_returns_original_casing() {
    let query = "rUsT";
    let content = "Rust:\nTrust me.\nnothing here";
    assert_eq!(vec!["Rust:", "Trust me."], search_case_insensitive(query, content));
}

#[test]
fn no_match_returns_empty() {
    let query = "monomorphization";
    let content = "Rust:\nsafe, fast, productive.\nPick three.";
    assert_eq!(Vec::<&str>::new(), search(query, content));
}

#[test]
fn empty_query_returns_all_lines() {
    let content = "Rust:\nsafe, fast, productive.\nPick three.";
    assert_eq!(vec!["Rust:", "safe, fast, productive.", "Pick three."], search("", content));
    assert_eq!(
        vec!["Rust:", "safe, fast, productive.", "Pick three."],
        search_case_insensitive("", content)
    );
}

#[test]
fn empty_content_returns_no_lines() {
    assert_eq!(Vec::<&str>::new(), search("a", ""));
    assert_eq!(Vec::<&str>::new(), search("", ""));
    assert_eq!(Vec::<&str>::new(), search_case_insensitive("a", ""));
}

#[test]
fn order_of_matches_is_line_order() {
    let content = "one ab\ntwo\nthree ab\nfour ab\nfive";
    assert_eq!(vec!["one ab", "three ab", "four ab"], search("ab", content));
}

#[test]
fn trailing_newline_adds_no_line() {
    assert_eq!(vec!["a", "b"], search("", "a\nb\n"));
    assert_eq!(vec!["ab"], search("ab", "ab\n"));
}

#[test]
fn empty_lines_are_kept() {
    assert_eq!(vec!["a", "", "b"], search("", "a\n\nb"));
}

#[test]
fn query_spanning_lines_does_not_match() {
    assert_eq!(Vec::<&str>::new(), search("a\nb", "a\nb"));
    assert_eq!(Vec::<&str>::new(), search("ab", "a\nb"));
}
