use minigrep::Config;
use minigrep::find_and_highlight;

fn args(list: &[&str]) -> Vec<String> {
    list.iter().map(|s| s.to_string()).collect()
}

#[test]
fn build_with_both_arguments() {
    let config = Config::build(args(&["prog", "poem.txt", "duct"]), false).unwrap();
    assert_eq!("poem.txt", config.file_path);
    assert_eq!("duct", config.query);
    assert!(!config.ignore_case);
}

#[test]
fn build_keeps_case_toggle() {
    let config = Config::build(args(&["prog", "poem.txt", "duct"]), true).unwrap();
    assert!(config.ignore_case);
}

#[test]
fn build_without_file_path() {
    assert_eq!("Didn't get a file path", Config::build(args(&["prog"]), false).unwrap_err());
    assert_eq!("Didn't get a file path", Config::build(args(&[]), false).unwrap_err());
}

#[test]
fn build_without_query() {
    assert_eq!("Didn't get a query", Config::build(args(&["prog", "poem.txt"]), false).unwrap_err());
}

#[test]
fn matched_lines_come_with_segments() {
    let content = "Rust:\nsafe, fast, productive.\nPick three.";
    let report = find_and_highlight("duct", content, false);
    assert_eq!(1, report.len());
    let (line, segs) = &report[0];
    assert_eq!(&"safe, fast, productive.", line);
    assert_eq!(3, segs.len());
    assert!(!segs[0].highlighted && segs[0].text == "safe, fast, pro");
    assert!(segs[1].highlighted && segs[1].text == "duct");
    assert!(!segs[2].highlighted && segs[2].text == "ive.");
}

#[test]
fn case_insensitive_report_keeps_original_line() {
    let content = "Rust:\nsafe, fast, productive.\nPick three.";
    let report = find_and_highlight("DUCT", content, true);
    assert_eq!(1, report.len());
    let (line, segs) = &report[0];
    assert_eq!(&"safe, fast, productive.", line);
    assert!(segs[1].highlighted && segs[1].text == "duct");
}

#[test]
fn no_match_gives_empty_report() {
    let content = "Rust:\nsafe, fast, productive.\nPick three.";
    let report = find_and_highlight("monomorphization", content, false);
    assert!(report.is_empty());
}
