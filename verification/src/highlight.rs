//! Partitioning a matched line into plain and highlighted segments.
//!
//! The line is scanned left to right; each first-found occurrence of the
//! query becomes a highlighted segment and the text between occurrences
//! becomes plain segments. Segments carry the original line text, so case
//! is preserved even when occurrences were found ignoring case. An empty
//! query highlights nothing: the whole line is one plain segment.

use vstd::prelude::*;

use crate::casing::folded;
use crate::casing::lemma_folded_subrange;
use crate::matching::find_from;
use crate::matching::lemma_spec_find_props;
use crate::matching::spec_find;

verus! {

/// One run of characters of a line, either plain or highlighted.
#[derive(Debug, Clone, Copy)]
pub struct Segment<'a> {
    pub highlighted: bool,
    pub text: &'a str,
}

/// The segments as pairs of highlight flag and text.
pub open spec fn seg_views(segs: Seq<Segment>) -> Seq<(bool, Seq<char>)> {
    segs.map_values(|g: Segment| (g.highlighted, g.text@))
}

/// The segments of the part of `l` that starts at position `i`: up to the
/// first occurrence of `q` at or after `i` the text is plain, the occurrence
/// itself is highlighted, and the rest is segmented the same way. With no
/// further occurrence, or an empty query, the remainder is one plain
/// segment.
pub open spec fn spec_highlight_from(
    l: Seq<char>,
    q: Seq<char>,
    ignore_case: bool,
    i: int,
) -> Seq<(bool, Seq<char>)>
    decreases l.len() - i,
{
    if i < 0 || i >= l.len() {
        Seq::empty()
    } else if q.len() == 0 {
        seq![(false, l.subrange(i, l.len() as int))]
    } else {
        match spec_find(folded(l, ignore_case), folded(q, ignore_case), i) {
            Some(p) => if i <= p && p + q.len() <= l.len() {
                (if p > i {
                    seq![(false, l.subrange(i, p))]
                } else {
                    Seq::empty()
                }) + seq![(true, l.subrange(p, p + q.len() as int))] + spec_highlight_from(
                    l,
                    q,
                    ignore_case,
                    p + q.len() as int,
                )
            } else {
                Seq::empty()
            },
            None => seq![(false, l.subrange(i, l.len() as int))],
        }
    }
}

/// The plain and highlighted segments of the whole of `l`.
pub open spec fn spec_highlight(l: Seq<char>, q: Seq<char>, ignore_case: bool) -> Seq<
    (bool, Seq<char>),
> {
    spec_highlight_from(l, q, ignore_case, 0)
}

/// Splits `line` into its plain and highlighted segments for `query`.
pub fn highlight_line<'a>(line: &'a str, query: &str, ignore_case: bool) -> (segs: Vec<
    Segment<'a>,
>)
    ensures
        seg_views(segs@) == spec_highlight(line@, query@, ignore_case),
{
    let ghost fl = folded(line@, ignore_case);
    let ghost fq = folded(query@, ignore_case);
    let n = line.unicode_len();
    let m = query.unicode_len();
    let mut segs: Vec<Segment<'a>> = Vec::new();
    proof {
        assert(seg_views(segs@) =~= Seq::<(bool, Seq<char>)>::empty());
    }
    if m == 0 {
        if n > 0 {
            let seg = Segment { highlighted: false, text: line };
            proof {
                assert(line@.subrange(0, n as int) =~= line@);
                assert(seg_views(segs@.push(seg)) =~= seq![(false, line@)]);
            }
            segs.push(seg);
        }
        return segs;
    }
    let mut i: usize = 0;
    while i < n
        invariant
            0 <= i <= n,
            0 < m == query@.len(),
            n == line@.len(),
            fl == folded(line@, ignore_case),
            fq == folded(query@, ignore_case),
            spec_highlight(line@, query@, ignore_case) == seg_views(segs@)
                + spec_highlight_from(line@, query@, ignore_case, i as int),
        decreases n - i,
    {
        let ghost before = seg_views(segs@);
        match find_from(line, query, i, ignore_case) {
            Some(p) => {
                proof {
                    lemma_spec_find_props(fl, fq, i as int);
                }
                if p > i {
                    let plain = Segment { highlighted: false, text: line.substring_char(i, p) };
                    proof {
                        assert(seg_views(segs@.push(plain)) =~= seg_views(segs@).push(
                            (false, line@.subrange(i as int, p as int)),
                        ));
                    }
                    segs.push(plain);
                }
                let hl = Segment { highlighted: true, text: line.substring_char(p, p + m) };
                proof {
                    assert(seg_views(segs@.push(hl)) =~= seg_views(segs@).push(
                        (true, line@.subrange(p as int, p + m)),
                    ));
                }
                segs.push(hl);
                proof {
                    if p > i {
                        assert(seg_views(segs@) =~= before + (seq![
                            (false, line@.subrange(i as int, p as int)),
                        ] + seq![(true, line@.subrange(p as int, p + m))]));
                    } else {
                        assert(seg_views(segs@) =~= before + (Seq::<(bool, Seq<char>)>::empty()
                            + seq![(true, line@.subrange(p as int, p + m))]));
                    }
                    assert(seg_views(segs@) + spec_highlight_from(
                        line@,
                        query@,
                        ignore_case,
                        p + m,
                    ) =~= spec_highlight(line@, query@, ignore_case));
                }
                i = p + m;
            },
            None => {
                let plain = Segment { highlighted: false, text: line.substring_char(i, n) };
                proof {
                    assert(seg_views(segs@.push(plain)) =~= seg_views(segs@).push(
                        (false, line@.subrange(i as int, n as int)),
                    ));
                    assert(before + seq![(false, line@.subrange(i as int, n as int))]
                        + Seq::<(bool, Seq<char>)>::empty() =~= before + seq![
                        (false, line@.subrange(i as int, n as int)),
                    ]);
                }
                segs.push(plain);
                i = n;
            },
        }
    }
    proof {
        assert(seg_views(segs@) + Seq::<(bool, Seq<char>)>::empty() =~= seg_views(segs@));
    }
    segs
}

/// The texts of a run of segments, concatenated in order.
pub open spec fn seg_text_concat(segs: Seq<(bool, Seq<char>)>) -> Seq<char>
    decreases segs.len(),
{
    if segs.len() == 0 {
        Seq::empty()
    } else {
        segs[0].1 + seg_text_concat(segs.drop_first())
    }
}

/// Concatenating the texts of two runs of segments in turn concatenates
/// their texts.
pub proof fn lemma_seg_text_concat_add(a: Seq<(bool, Seq<char>)>, b: Seq<(bool, Seq<char>)>)
    ensures
        seg_text_concat(a + b) == seg_text_concat(a) + seg_text_concat(b),
    decreases a.len(),
{
    if a.len() == 0 {
        assert(a + b =~= b);
        assert(seg_text_concat(a) + seg_text_concat(b) =~= seg_text_concat(b));
    } else {
        assert((a + b).drop_first() =~= a.drop_first() + b);
        lemma_seg_text_concat_add(a.drop_first(), b);
        assert((a + b)[0] == a[0]);
        assert(a[0].1 + (seg_text_concat(a.drop_first()) + seg_text_concat(b)) =~= (a[0].1
            + seg_text_concat(a.drop_first())) + seg_text_concat(b));
    }
}

/// The text of a single segment is its own concatenation.
proof fn lemma_seg_text_concat_singleton(x: (bool, Seq<char>))
    ensures
        seg_text_concat(seq![x]) == x.1,
{
    assert(seq![x].drop_first() =~= Seq::<(bool, Seq<char>)>::empty());
    assert(seg_text_concat(Seq::<(bool, Seq<char>)>::empty()) =~= Seq::<char>::empty());
    assert(seg_text_concat(seq![x]) =~= x.1);
}

proof fn lemma_highlight_from_reconstructs(l: Seq<char>, q: Seq<char>, ignore_case: bool, i: int)
    requires
        0 <= i <= l.len(),
    ensures
        seg_text_concat(spec_highlight_from(l, q, ignore_case, i)) == l.subrange(i, l.len() as int),
    decreases l.len() - i,
{
    let r = spec_highlight_from(l, q, ignore_case, i);
    if i >= l.len() {
        assert(l.subrange(i, l.len() as int) =~= Seq::<char>::empty());
    } else if q.len() == 0 {
        assert(seg_text_concat(r.drop_first()) =~= Seq::<char>::empty());
        assert(seg_text_concat(r) =~= l.subrange(i, l.len() as int));
    } else {
        let fl = folded(l, ignore_case);
        let fq = folded(q, ignore_case);
        lemma_spec_find_props(fl, fq, i);
        match spec_find(fl, fq, i) {
            Some(p) => {
                lemma_highlight_from_reconstructs(l, q, ignore_case, p + q.len() as int);
                let pre: Seq<(bool, Seq<char>)> = if p > i {
                    seq![(false, l.subrange(i, p))]
                } else {
                    Seq::empty()
                };
                let mid: Seq<(bool, Seq<char>)> = seq![(true, l.subrange(p, p + q.len() as int))];
                let rest = spec_highlight_from(l, q, ignore_case, p + q.len() as int);
                lemma_seg_text_concat_add(pre + mid, rest);
                lemma_seg_text_concat_add(pre, mid);
                lemma_seg_text_concat_singleton((true, l.subrange(p, p + q.len() as int)));
                if p > i {
                    lemma_seg_text_concat_singleton((false, l.subrange(i, p)));
                } else {
                    assert(seg_text_concat(pre) =~= Seq::<char>::empty());
                }
                assert(seg_text_concat(r) =~= l.subrange(i, l.len() as int));
            },
            None => {
                assert(seg_text_concat(r.drop_first()) =~= Seq::<char>::empty());
                assert(seg_text_concat(r) =~= l.subrange(i, l.len() as int));
            },
        }
    }
}

/// Concatenating all the segments of a line, plain and highlighted, in
/// order, reconstructs the line exactly.
pub proof fn lemma_highlight_reconstructs(l: Seq<char>, q: Seq<char>, ignore_case: bool)
    ensures
        seg_text_concat(spec_highlight(l, q, ignore_case)) == l,
{
    lemma_highlight_from_reconstructs(l, q, ignore_case, 0);
    assert(l.subrange(0, l.len() as int) =~= l);
}

proof fn lemma_highlight_from_segments(l: Seq<char>, q: Seq<char>, ignore_case: bool, i: int)
    requires
        0 <= i,
    ensures
        forall|k: int|
            0 <= k < spec_highlight_from(l, q, ignore_case, i).len() && (
            #[trigger] spec_highlight_from(l, q, ignore_case, i)[k]).0 ==> {
                let seg = spec_highlight_from(l, q, ignore_case, i)[k];
                seg.1.len() == q.len() && folded(seg.1, ignore_case) == folded(q, ignore_case)
            },
    decreases l.len() - i,
{
    let r = spec_highlight_from(l, q, ignore_case, i);
    if i >= l.len() || q.len() == 0 {
    } else {
        let fl = folded(l, ignore_case);
        let fq = folded(q, ignore_case);
        lemma_spec_find_props(fl, fq, i);
        match spec_find(fl, fq, i) {
            Some(p) => {
                lemma_highlight_from_segments(l, q, ignore_case, p + q.len() as int);
                let pre: Seq<(bool, Seq<char>)> = if p > i {
                    seq![(false, l.subrange(i, p))]
                } else {
                    Seq::empty()
                };
                let mid: Seq<(bool, Seq<char>)> = seq![(true, l.subrange(p, p + q.len() as int))];
                let rest = spec_highlight_from(l, q, ignore_case, p + q.len() as int);
                lemma_folded_subrange(l, ignore_case, p, p + q.len() as int);
                assert(folded(l.subrange(p, p + q.len() as int), ignore_case) == fq);
                assert forall|k: int| 0 <= k < r.len() && (#[trigger] r[k]).0 implies {
                    let seg = r[k];
                    seg.1.len() == q.len() && folded(seg.1, ignore_case) == folded(q, ignore_case)
                } by {
                    if k < pre.len() {
                        assert(r[k] == pre[k]);
                    } else if k == pre.len() {
                        assert(r[k] == mid[0]);
                    } else {
                        assert(r[k] == rest[k - pre.len() - 1]);
                    }
                }
            },
            None => {},
        }
    }
}

/// Every highlighted segment is exactly as long as the query, and is an
/// occurrence of the query under the chosen case mode.
pub proof fn lemma_highlight_segments(l: Seq<char>, q: Seq<char>, ignore_case: bool, k: int)
    requires
        0 <= k < spec_highlight(l, q, ignore_case).len(),
        spec_highlight(l, q, ignore_case)[k].0,
    ensures
        spec_highlight(l, q, ignore_case)[k].1.len() == q.len(),
        folded(spec_highlight(l, q, ignore_case)[k].1, ignore_case) == folded(q, ignore_case),
{
    lemma_highlight_from_segments(l, q, ignore_case, 0);
}

/// An empty query highlights nothing: a nonempty line becomes one plain
/// segment and an empty line has no segments.
pub proof fn lemma_highlight_empty_query(l: Seq<char>, q: Seq<char>, ignore_case: bool)
    requires
        q.len() == 0,
    ensures
        spec_highlight(l, q, ignore_case) == if l.len() == 0 {
            Seq::<(bool, Seq<char>)>::empty()
        } else {
            seq![(false, l)]
        },
{
    if l.len() > 0 {
        assert(l.subrange(0, l.len() as int) =~= l);
    }
}

} // verus!
