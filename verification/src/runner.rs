//! The search-and-highlight pipeline of one run.
//!
//! A run reads a file, searches its content, and prints each matched line
//! with its occurrences of the query highlighted. Reading and printing are
//! the caller's: this module computes everything in between, pairing each
//! matched line with its segments.

use vstd::prelude::*;

use crate::highlight::Segment;
use crate::highlight::highlight_line;
use crate::highlight::seg_views;
use crate::highlight::spec_highlight;
use crate::lines::views_of;
use crate::search::search;
use crate::search::search_case_insensitive;
use crate::search::spec_search;

verus! {

/// Every line of `content` that contains `query`, in order, each paired
/// with its plain and highlighted segments. The case mode selects the
/// search variant and is shared by the highlighter.
pub fn find_and_highlight<'a>(query: &str, content: &'a str, ignore_case: bool) -> (r: Vec<
    (&'a str, Vec<Segment<'a>>),
>)
    ensures
        ({
            let found = spec_search(query@, content@, ignore_case);
            &&& r@.len() == found.len()
            &&& forall|i: int|
                0 <= i < found.len() ==> (#[trigger] r@[i]).0@ == found[i] && seg_views(r@[i].1@)
                    == spec_highlight(found[i], query@, ignore_case)
        }),
{
    let ghost found = spec_search(query@, content@, ignore_case);
    let matched = if ignore_case {
        search_case_insensitive(query, content)
    } else {
        search(query, content)
    };
    let mut r: Vec<(&'a str, Vec<Segment<'a>>)> = Vec::new();
    let mut i: usize = 0;
    while i < matched.len()
        invariant
            0 <= i <= matched.len(),
            views_of(matched@) == found,
            found == spec_search(query@, content@, ignore_case),
            r@.len() == i,
            forall|j: int|
                0 <= j < i ==> (#[trigger] r@[j]).0@ == found[j] && seg_views(r@[j].1@)
                    == spec_highlight(found[j], query@, ignore_case),
        decreases matched.len() - i,
    {
        let line = matched[i];
        proof {
            assert(line@ == found[i as int]);
        }
        let segs = highlight_line(line, query, ignore_case);
        r.push((line, segs));
        i += 1;
    }
    r
}

} // verus!
