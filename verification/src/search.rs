//! Searching content for lines that contain a query.
//!
//! The result of a search is exactly the sequence of lines of the content
//! that contain the query, in their original order and with their original
//! text; the case-insensitive variant only changes the containment test,
//! never the returned text.

use vstd::prelude::*;

use crate::casing::folded;
use crate::lines::spec_lines;
use crate::lines::split_lines;
use crate::lines::views_of;
use crate::matching::is_match_at;
use crate::matching::line_contains;
use crate::matching::line_matches;

verus! {

/// The containment test a search applies to each line.
pub open spec fn match_pred(q: Seq<char>, ignore_case: bool) -> spec_fn(Seq<char>) -> bool {
    |l: Seq<char>| line_matches(l, q, ignore_case)
}

/// The lines of `c` that contain `q`, in their original order.
pub open spec fn spec_search(q: Seq<char>, c: Seq<char>, ignore_case: bool) -> Seq<Seq<char>> {
    spec_lines(c).filter(match_pred(q, ignore_case))
}

/// A filtered singleton keeps or drops its one element.
proof fn lemma_filter_singleton<A>(x: A, pred: spec_fn(A) -> bool)
    ensures
        seq![x].filter(pred) == if pred(x) {
            seq![x]
        } else {
            Seq::<A>::empty()
        },
{
    reveal(Seq::filter);
    assert(seq![x].drop_last() =~= Seq::<A>::empty());
    assert(Seq::<A>::empty().filter(pred) =~= Seq::<A>::empty());
    if pred(x) {
        assert(seq![x].filter(pred) =~= seq![x]);
    } else {
        assert(seq![x].filter(pred) =~= Seq::<A>::empty());
    }
}

/// A filter that keeps every element returns the sequence unchanged.
proof fn lemma_filter_all<A>(s: Seq<A>, pred: spec_fn(A) -> bool)
    requires
        forall|i: int| 0 <= i < s.len() ==> pred(s[i]),
    ensures
        s.filter(pred) == s,
    decreases s.len(),
{
    reveal(Seq::filter);
    if s.len() == 0 {
        assert(s.filter(pred) =~= s);
    } else {
        lemma_filter_all(s.drop_last(), pred);
        assert(pred(s.last()));
        assert(s.drop_last().push(s.last()) =~= s);
    }
}

/// Every element of a filtered sequence stands somewhere in the original.
proof fn lemma_filter_element_index<A>(s: Seq<A>, pred: spec_fn(A) -> bool, i: int)
    requires
        0 <= i < s.filter(pred).len(),
    ensures
        exists|j: int| 0 <= j < s.len() && s[j] == s.filter(pred)[i],
    decreases s.len(),
{
    reveal(Seq::filter);
    if s.len() == 0 {
    } else {
        let f = s.filter(pred);
        let f2 = s.drop_last().filter(pred);
        if i < f2.len() {
            lemma_filter_element_index(s.drop_last(), pred, i);
            let j = choose|j: int| 0 <= j < s.drop_last().len() && s.drop_last()[j] == f2[i];
            assert(s[j] == f[i]);
        } else {
            assert(pred(s.last()) && f == f2.push(s.last()));
            assert(s[s.len() - 1] == f[i]);
        }
    }
}

/// Filtering keeps the relative order of the elements it keeps: two result
/// positions come from two original positions in the same order.
proof fn lemma_filter_preserves_order<A>(s: Seq<A>, pred: spec_fn(A) -> bool, i: int, j: int)
    requires
        0 <= i < j < s.filter(pred).len(),
    ensures
        exists|i2: int, j2: int|
            0 <= i2 < j2 < s.len() && s[i2] == s.filter(pred)[i] && s[j2] == s.filter(pred)[j],
    decreases s.len(),
{
    reveal(Seq::filter);
    if s.len() == 0 {
    } else {
        let f = s.filter(pred);
        let f2 = s.drop_last().filter(pred);
        if j < f2.len() {
            lemma_filter_preserves_order(s.drop_last(), pred, i, j);
            let (i2, j2) = choose|i2: int, j2: int|
                0 <= i2 < j2 < s.drop_last().len() && s.drop_last()[i2] == f2[i]
                    && s.drop_last()[j2] == f2[j];
            assert(s[i2] == f[i] && s[j2] == f[j]);
        } else {
            assert(pred(s.last()) && f == f2.push(s.last()));
            lemma_filter_element_index(s.drop_last(), pred, i);
            let i2 = choose|i2: int| 0 <= i2 < s.drop_last().len() && s.drop_last()[i2] == f2[i];
            assert(s[i2] == f[i] && s[s.len() - 1] == f[j]);
        }
    }
}

/// The lines of `content` that contain `query`, under the chosen case mode.
fn search_by<'a>(query: &str, content: &'a str, ignore_case: bool) -> (r: Vec<&'a str>)
    ensures
        views_of(r@) == spec_search(query@, content@, ignore_case),
{
    let ghost pred = match_pred(query@, ignore_case);
    let lines = split_lines(content);
    let ghost all = spec_lines(content@);
    let mut r: Vec<&'a str> = Vec::new();
    let mut i: usize = 0;
    proof {
        assert(all.take(0) =~= Seq::<Seq<char>>::empty());
        assert(Seq::<Seq<char>>::empty().filter(pred) =~= Seq::<Seq<char>>::empty()) by {
            reveal(Seq::filter);
        }
        assert(views_of(r@) =~= Seq::<Seq<char>>::empty());
    }
    while i < lines.len()
        invariant
            0 <= i <= lines.len(),
            views_of(lines@) == all,
            all == spec_lines(content@),
            pred == match_pred(query@, ignore_case),
            views_of(r@) == all.take(i as int).filter(pred),
        decreases lines.len() - i,
    {
        let line = lines[i];
        proof {
            assert(line@ == all[i as int]);
            assert(all.take(i + 1) =~= all.take(i as int) + seq![all[i as int]]);
            Seq::filter_distributes_over_add(all.take(i as int), seq![all[i as int]], pred);
            lemma_filter_singleton(all[i as int], pred);
        }
        if line_contains(line, query, ignore_case) {
            proof {
                assert(views_of(r@.push(line)) =~= views_of(r@).push(line@));
                assert(all.take(i as int).filter(pred) + seq![all[i as int]] =~= all.take(
                    i as int,
                ).filter(pred).push(line@));
            }
            r.push(line);
        } else {
            proof {
                assert(all.take(i as int).filter(pred) + Seq::<Seq<char>>::empty() =~= all.take(
                    i as int,
                ).filter(pred));
            }
        }
        i += 1;
    }
    proof {
        assert(all.take(lines@.len() as int) =~= all);
    }
    r
}

/// The lines of `content` that contain `query` as a contiguous substring,
/// compared exactly.
pub fn search<'a>(query: &str, content: &'a str) -> (r: Vec<&'a str>)
    ensures
        views_of(r@) == spec_search(query@, content@, false),
{
    search_by(query, content, false)
}

/// The lines of `content` that contain `query` when both are lowercased;
/// the returned lines keep their original casing.
pub fn search_case_insensitive<'a>(query: &str, content: &'a str) -> (r: Vec<&'a str>)
    ensures
        views_of(r@) == spec_search(query@, content@, true),
{
    search_by(query, content, true)
}

/// Every line a search returns contains the query under the chosen case
/// mode, and is a line of the original content, text unchanged.
pub proof fn lemma_search_finds_matches(q: Seq<char>, c: Seq<char>, ignore_case: bool, i: int)
    requires
        0 <= i < spec_search(q, c, ignore_case).len(),
    ensures
        line_matches(spec_search(q, c, ignore_case)[i], q, ignore_case),
        spec_lines(c).contains(spec_search(q, c, ignore_case)[i]),
{
    broadcast use Seq::lemma_filter_pred;

    lemma_filter_element_index(spec_lines(c), match_pred(q, ignore_case), i);
    let j = choose|j: int|
        0 <= j < spec_lines(c).len() && spec_lines(c)[j] == spec_search(q, c, ignore_case)[i];
    assert(spec_lines(c).contains(spec_lines(c)[j]));
}

/// A search keeps the relative order of the content's lines.
pub proof fn lemma_search_preserves_order(
    q: Seq<char>,
    c: Seq<char>,
    ignore_case: bool,
    i: int,
    j: int,
)
    requires
        0 <= i < j < spec_search(q, c, ignore_case).len(),
    ensures
        exists|i2: int, j2: int|
            0 <= i2 < j2 < spec_lines(c).len() && spec_lines(c)[i2] == spec_search(
                q,
                c,
                ignore_case,
            )[i] && spec_lines(c)[j2] == spec_search(q, c, ignore_case)[j],
{
    lemma_filter_preserves_order(spec_lines(c), match_pred(q, ignore_case), i, j);
}

/// An empty query matches every line, so a search returns all lines.
pub proof fn lemma_search_empty_query(q: Seq<char>, c: Seq<char>, ignore_case: bool)
    requires
        q.len() == 0,
    ensures
        spec_search(q, c, ignore_case) == spec_lines(c),
{
    let pred = match_pred(q, ignore_case);
    assert forall|i: int| 0 <= i < spec_lines(c).len() implies pred(spec_lines(c)[i]) by {
        let l = spec_lines(c)[i];
        let fl = folded(l, ignore_case);
        let fq = folded(q, ignore_case);
        assert(fl.subrange(0, fq.len() as int) =~= fq);
        assert(is_match_at(fl, fq, 0));
    }
    lemma_filter_all(spec_lines(c), pred);
}

} // verus!
