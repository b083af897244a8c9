//! Splitting content into lines.
//!
//! Content is logically a sequence of lines separated by `'\n'`. Empty
//! content has no lines, and content that ends with a newline contributes
//! no trailing empty line, so `"a\nb"` and `"a\nb\n"` both split into
//! `"a"` and `"b"`.

use vstd::prelude::*;

verus! {

/// The lines of `s`: the maximal newline-free runs between `'\n'`
/// separators, with no trailing empty line for content that ends in one.
pub open spec fn spec_lines(s: Seq<char>) -> Seq<Seq<char>>
    decreases s.len(),
{
    if s.len() == 0 {
        Seq::empty()
    } else if s[0] == '\n' {
        seq![Seq::<char>::empty()] + spec_lines(s.drop_first())
    } else {
        let rest = spec_lines(s.drop_first());
        if rest.len() == 0 {
            seq![seq![s[0]]]
        } else {
            seq![seq![s[0]] + rest[0]] + rest.drop_first()
        }
    }
}

/// The views of a sequence of string slices.
pub open spec fn views_of(lines: Seq<&str>) -> Seq<Seq<char>> {
    lines.map_values(|l: &str| l@)
}

/// How the lines of `s` decompose at its first newline: when the first `k`
/// characters are newline-free and position `k` holds a newline (or is the
/// end), the first line is `s` up to `k` and the remaining lines are the
/// lines of what follows the newline.
pub proof fn lemma_spec_lines_split(s: Seq<char>, k: int)
    requires
        0 <= k <= s.len(),
        forall|t: int| 0 <= t < k ==> s[t] != '\n',
        k < s.len() ==> s[k] == '\n',
    ensures
        k == s.len() && s.len() > 0 ==> spec_lines(s) == seq![s],
        k < s.len() ==> spec_lines(s) == seq![s.subrange(0, k)] + spec_lines(
            s.subrange(k + 1, s.len() as int),
        ),
    decreases k,
{
    if s.len() == 0 {
    } else if k == 0 {
        assert(s[0] == '\n');
        assert(s.subrange(0, 0) =~= Seq::<char>::empty());
        assert(s.drop_first() =~= s.subrange(1, s.len() as int));
    } else {
        let s2 = s.drop_first();
        lemma_spec_lines_split(s2, k - 1);
        let rest = spec_lines(s2);
        if k == s.len() {
            if s2.len() == 0 {
                assert(spec_lines(s) == seq![seq![s[0]]]);
                assert(seq![s[0]] =~= s);
            } else {
                assert(rest == seq![s2]);
                assert(seq![s[0]] + s2 =~= s);
                assert(rest.drop_first() =~= Seq::<Seq<char>>::empty());
                assert(spec_lines(s) =~= seq![s]);
            }
        } else {
            assert(rest == seq![s2.subrange(0, k - 1)] + spec_lines(
                s2.subrange(k, s2.len() as int),
            ));
            assert(rest.len() > 0);
            assert(rest[0] == s2.subrange(0, k - 1));
            assert(seq![s[0]] + s2.subrange(0, k - 1) =~= s.subrange(0, k));
            assert(rest.drop_first() =~= spec_lines(s2.subrange(k, s2.len() as int)));
            assert(s2.subrange(k, s2.len() as int) =~= s.subrange(k + 1, s.len() as int));
            assert(spec_lines(s) =~= seq![s.subrange(0, k)] + spec_lines(
                s.subrange(k + 1, s.len() as int),
            ));
        }
    }
}

/// Splits `content` into its lines.
pub fn split_lines<'a>(content: &'a str) -> (r: Vec<&'a str>)
    ensures
        views_of(r@) == spec_lines(content@),
{
    let n = content.unicode_len();
    let mut r: Vec<&'a str> = Vec::new();
    let mut i: usize = 0;
    proof {
        assert(content@.subrange(0, n as int) =~= content@);
        assert(views_of(r@) =~= Seq::<Seq<char>>::empty());
    }
    while i < n
        invariant
            0 <= i <= n,
            n == content@.len(),
            spec_lines(content@) == views_of(r@) + spec_lines(
                content@.subrange(i as int, n as int),
            ),
        decreases n - i,
    {
        let ghost suffix = content@.subrange(i as int, n as int);
        let mut j = i;
        while j < n && content.get_char(j) != '\n'
            invariant
                i <= j <= n,
                n == content@.len(),
                forall|t: int| i <= t < j ==> content@[t] != '\n',
            decreases n - j,
        {
            j += 1;
        }
        proof {
            assert(forall|t: int| 0 <= t < j - i ==> suffix[t] != '\n');
            lemma_spec_lines_split(suffix, j - i);
        }
        let line = content.substring_char(i, j);
        proof {
            assert(line@ =~= suffix.subrange(0, j - i));
            assert(views_of(r@.push(line)) =~= views_of(r@).push(line@));
        }
        r.push(line);
        if j < n {
            proof {
                assert(suffix.subrange(j - i + 1, suffix.len() as int) =~= content@.subrange(
                    j + 1,
                    n as int,
                ));
                assert(views_of(r@) + spec_lines(content@.subrange(j + 1, n as int))
                    =~= spec_lines(content@));
            }
            i = j + 1;
        } else {
            proof {
                assert(suffix =~= suffix.subrange(0, j - i));
                assert(spec_lines(content@.subrange(n as int, n as int)) =~= Seq::<
                    Seq<char>,
                >::empty());
                assert(views_of(r@) + spec_lines(content@.subrange(n as int, n as int))
                    =~= spec_lines(content@));
            }
            i = n;
        }
    }
    proof {
        assert(spec_lines(content@.subrange(n as int, n as int)) =~= Seq::<Seq<char>>::empty());
        assert(views_of(r@) =~= spec_lines(content@));
    }
    r
}

} // verus!
