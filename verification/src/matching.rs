//! Substring matching.
//!
//! A query occurs in a line at position `i` when the characters of the line
//! starting at `i` equal the query. Case-insensitive matching compares the
//! folded line against the folded query; positions are shared between the
//! folded and the original text because folding preserves length.

use vstd::prelude::*;

use crate::casing::folded;
use crate::casing::folded_char;
use crate::casing::lower_char_exec;

verus! {

/// The query `q` occurs in `l` starting at position `i`.
pub open spec fn is_match_at(l: Seq<char>, q: Seq<char>, i: int) -> bool {
    &&& 0 <= i
    &&& i + q.len() <= l.len()
    &&& l.subrange(i, i + q.len() as int) == q
}

/// The query `q` occurs somewhere in `l`.
pub open spec fn spec_contains(l: Seq<char>, q: Seq<char>) -> bool {
    exists|i: int| is_match_at(l, q, i)
}

/// A line matches a query when the folded line contains the folded query.
pub open spec fn line_matches(l: Seq<char>, q: Seq<char>, ignore_case: bool) -> bool {
    spec_contains(folded(l, ignore_case), folded(q, ignore_case))
}

/// The position of the first occurrence of `q` in `l` at or after `i`,
/// or `None` when there is none.
pub open spec fn spec_find(l: Seq<char>, q: Seq<char>, i: int) -> Option<int>
    decreases l.len() + 1 - i,
{
    if i < 0 || i + q.len() > l.len() {
        None
    } else if l.subrange(i, i + q.len() as int) == q {
        Some(i)
    } else {
        spec_find(l, q, i + 1)
    }
}

/// What a `spec_find` result means: a found position is a match and is the
/// first one at or after `i`; `None` means there is no match at or after `i`.
pub proof fn lemma_spec_find_props(l: Seq<char>, q: Seq<char>, i: int)
    requires
        0 <= i,
    ensures
        match spec_find(l, q, i) {
            Some(p) => {
                &&& i <= p
                &&& is_match_at(l, q, p)
                &&& forall|k: int| i <= k < p ==> !is_match_at(l, q, k)
            },
            None => forall|k: int| i <= k ==> !is_match_at(l, q, k),
        },
    decreases l.len() + 1 - i,
{
    if i + q.len() > l.len() {
        assert forall|k: int| i <= k implies !is_match_at(l, q, k) by {
            assert(k + q.len() >= i + q.len());
        }
    } else if l.subrange(i, i + q.len() as int) == q {
    } else {
        lemma_spec_find_props(l, q, i + 1);
        assert(!is_match_at(l, q, i));
    }
}

/// A match at `p` with no match between `i` and `p` pins `spec_find` down.
proof fn lemma_spec_find_complete(l: Seq<char>, q: Seq<char>, i: int, p: int)
    requires
        0 <= i <= p,
        is_match_at(l, q, p),
        forall|k: int| i <= k < p ==> !is_match_at(l, q, k),
    ensures
        spec_find(l, q, i) == Some(p),
    decreases p - i,
{
    if i == p {
    } else {
        assert(i + q.len() <= p + q.len() <= l.len());
        assert(!is_match_at(l, q, i));
        lemma_spec_find_complete(l, q, i + 1, p);
    }
}

/// No match at or after `i` pins `spec_find` down to `None`.
proof fn lemma_spec_find_none(l: Seq<char>, q: Seq<char>, i: int)
    requires
        0 <= i,
        forall|k: int| i <= k ==> !is_match_at(l, q, k),
    ensures
        spec_find(l, q, i) is None,
    decreases l.len() + 1 - i,
{
    if i + q.len() > l.len() {
    } else {
        assert(!is_match_at(l, q, i));
        lemma_spec_find_none(l, q, i + 1);
    }
}

/// Compares two characters, ignoring ASCII case when asked to.
fn chars_match(a: char, b: char, ignore_case: bool) -> (r: bool)
    ensures
        r == (folded_char(a, ignore_case) == folded_char(b, ignore_case)),
{
    if ignore_case {
        lower_char_exec(a) == lower_char_exec(b)
    } else {
        a == b
    }
}

/// Whether the query occurs in the line at exactly position `i`,
/// under the chosen case mode.
fn match_at(line: &str, query: &str, i: usize, ignore_case: bool) -> (r: bool)
    requires
        i + query@.len() <= line@.len(),
    ensures
        r == is_match_at(folded(line@, ignore_case), folded(query@, ignore_case), i as int),
{
    let ghost fl = folded(line@, ignore_case);
    let ghost fq = folded(query@, ignore_case);
    let n = line.unicode_len();
    let m = query.unicode_len();
    let mut j: usize = 0;
    while j < m
        invariant
            0 <= j <= m,
            n == line@.len(),
            m == query@.len(),
            i + m <= n,
            fl == folded(line@, ignore_case),
            fq == folded(query@, ignore_case),
            forall|t: int| 0 <= t < j ==> fl[i + t] == fq[t],
        decreases m - j,
    {
        let a = line.get_char(i + j);
        let b = query.get_char(j);
        if !chars_match(a, b, ignore_case) {
            assert(fl[i + j] != fq[j as int]);
            assert(fl.subrange(i as int, i + m) != fq) by {
                assert(fl.subrange(i as int, i + m)[j as int] == fl[i + j]);
            }
            return false;
        }
        j += 1;
    }
    assert(fl.subrange(i as int, i + m) =~= fq);
    true
}

/// The first occurrence of `query` in `line` at or after position `from`,
/// under the chosen case mode.
pub fn find_from(line: &str, query: &str, from: usize, ignore_case: bool) -> (r: Option<usize>)
    requires
        from <= line@.len(),
    ensures
        ({
            let fl = folded(line@, ignore_case);
            let fq = folded(query@, ignore_case);
            match r {
                Some(p) => from <= p && spec_find(fl, fq, from as int) == Some(p as int),
                None => spec_find(fl, fq, from as int) is None,
            }
        }),
{
    let ghost fl = folded(line@, ignore_case);
    let ghost fq = folded(query@, ignore_case);
    let n = line.unicode_len();
    let m = query.unicode_len();
    if m == 0 {
        proof {
            assert(fl.subrange(from as int, from as int) =~= fq);
            lemma_spec_find_complete(fl, fq, from as int, from as int);
        }
        return Some(from);
    }
    if m > n || from > n - m {
        proof {
            assert forall|k: int| from <= k implies !is_match_at(fl, fq, k) by {
                assert(k + fq.len() > fl.len());
            }
            lemma_spec_find_none(fl, fq, from as int);
        }
        return None;
    }
    let mut i = from;
    while i <= n - m
        invariant
            from <= i <= n - m + 1,
            0 < m <= n,
            n == line@.len(),
            m == query@.len(),
            fl == folded(line@, ignore_case),
            fq == folded(query@, ignore_case),
            forall|k: int| from <= k < i ==> !is_match_at(fl, fq, k),
        decreases n - i,
    {
        if match_at(line, query, i, ignore_case) {
            proof {
                lemma_spec_find_complete(fl, fq, from as int, i as int);
            }
            return Some(i);
        }
        i += 1;
    }
    proof {
        assert forall|k: int| from <= k implies !is_match_at(fl, fq, k) by {
            if k < i {
            } else {
                assert(k + fq.len() > fl.len());
            }
        }
        lemma_spec_find_none(fl, fq, from as int);
    }
    None
}

/// Whether `line` contains `query`, under the chosen case mode.
pub fn line_contains(line: &str, query: &str, ignore_case: bool) -> (r: bool)
    ensures
        r == line_matches(line@, query@, ignore_case),
{
    let ghost fl = folded(line@, ignore_case);
    let ghost fq = folded(query@, ignore_case);
    match find_from(line, query, 0, ignore_case) {
        Some(p) => {
            proof {
                lemma_spec_find_props(fl, fq, 0);
            }
            true
        },
        None => {
            proof {
                lemma_spec_find_props(fl, fq, 0);
            }
            false
        },
    }
}

} // verus!
