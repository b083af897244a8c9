use minigrep::Segment;
use minigrep::highlight_line;

fn flags_and_texts<'a>(segs: &[Segment<'a>]) -> Vec<(bool, &'a str)> {
    segs.iter().map(|s| (s.highlighted, s.text)).collect()
}

fn reconstruct(segs: &[Segment<'_>]) -> String {
    let mut out = String::new();
    for s in segs {
        out.push_str(s.text);
    }
    out
}

#[test]
fn one_occurrence_three_segments() {
    let segs = highlight_line("safe, fast, productive.", "duct", false);
    assert_eq!(
        vec![(false, "safe, fast, pro"), (true, "duct"), (false, "ive.")],
        flags_and_texts(&segs)
    );
    assert_eq!("safe, fast, productive.", reconstruct(&segs));
}

#[test]
fn case_insensitive_keeps_original_casing() {
    let segs = highlight_line("safe, fast, proDUCTive.", "duct", true);
    assert_eq!(
        vec![(false, "safe, fast, pro"), (true, "DUCT"), (false, "ive.")],
        flags_and_texts(&segs)
    );
    assert_eq!("safe, fast, proDUCTive.", reconstruct(&segs));
}

#[test]
fn uppercase_query_finds_lowercase_text() {
    let segs = highlight_line("safe, fast, productive.", "DUCT", true);
    assert_eq!(
        vec![(false, "safe, fast, pro"), (true, "duct"), (false, "ive.")],
        flags_and_texts(&segs)
    );
}

#[test]
fn several_occurrences() {
    let segs = highlight_line("abcabxab", "ab", false);
    assert_eq!(
        vec![(true, "ab"), (false, "c"), (true, "ab"), (false, "x"), (true, "ab")],
        flags_and_texts(&segs)
    );
    assert_eq!("abcabxab", reconstruct(&segs));
}

#[test]
fn occurrences_do_not_overlap() {
    let segs = highlight_line("aaa", "aa", false);
    assert_eq!(vec![(true, "aa"), (false, "a")], flags_and_texts(&segs));
}

#[test]
fn adjacent_occurrences() {
    let segs = highlight_line("abab", "ab", false);
    assert_eq!(vec![(true, "ab"), (true, "ab")], flags_and_texts(&segs));
}

#[test]
fn match_at_end_of_line() {
    let segs = highlight_line("xyab", "ab", false);
    assert_eq!(vec![(false, "xy"), (true, "ab")], flags_and_texts(&segs));
}

#[test]
fn no_occurrence_one_plain_segment() {
    let segs = highlight_line("Pick three.", "duct", false);
    assert_eq!(vec![(false, "Pick three.")], flags_and_texts(&segs));
}

#[test]
fn empty_query_is_plain_passthrough() {
    let segs = highlight_line("Pick three.", "", false);
    assert_eq!(vec![(false, "Pick three.")], flags_and_texts(&segs));
    assert_eq!(vec![(false, "Pick three.")], flags_and_texts(&highlight_line("Pick three.", "", true)));
}

#[test]
fn empty_line_has_no_segments() {
    assert!(highlight_line("", "duct", false).is_empty());
    assert!(highlight_line("", "", false).is_empty());
}

#[test]
fn highlighted_segments_have_query_length() {
    let query = "fast";
    let segs = highlight_line("a fast, fast line", query, false);
    assert_eq!("a fast, fast line", reconstruct(&segs));
    let highlighted: Vec<&Segment<'_>> = segs.iter().filter(|s| s.highlighted).collect();
    assert_eq!(2, highlighted.len());
    for s in highlighted {
        assert_eq!(query.len(), s.text.len());
    }
}
