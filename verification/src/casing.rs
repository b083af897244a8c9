//! ASCII case folding.
//!
//! Case-insensitive matching lowercases both operands before comparing.
//! Folding is restricted to the ASCII letters: every other character is left
//! unchanged, so folding never changes the length of a string and offsets
//! computed on folded text always align with the original text.

use vstd::prelude::*;

verus! {

/// The ASCII lowercase counterpart of a character: `'A'..='Z'` map to
/// `'a'..='z'`, every other character is unchanged.
pub open spec fn lower_char(c: char) -> char {
    if 'A' <= c && c <= 'Z' {
        ((c as int) + 32) as char
    } else {
        c
    }
}

/// A string folded character by character; the length never changes.
pub open spec fn lower(s: Seq<char>) -> Seq<char> {
    s.map_values(|c: char| lower_char(c))
}

/// The text that a containment test actually inspects: folded when the
/// comparison ignores case, the text itself otherwise.
pub open spec fn folded(s: Seq<char>, ignore_case: bool) -> Seq<char> {
    if ignore_case {
        lower(s)
    } else {
        s
    }
}

/// A single character as a containment test sees it.
pub open spec fn folded_char(c: char, ignore_case: bool) -> char {
    if ignore_case {
        lower_char(c)
    } else {
        c
    }
}

/// Folding commutes with taking a subrange.
pub proof fn lemma_folded_subrange(s: Seq<char>, ignore_case: bool, a: int, b: int)
    requires
        0 <= a <= b <= s.len(),
    ensures
        folded(s.subrange(a, b), ignore_case) == folded(s, ignore_case).subrange(a, b),
{
    assert(folded(s.subrange(a, b), ignore_case) =~= folded(s, ignore_case).subrange(a, b));
}

/// Computes `lower_char`.
pub fn lower_char_exec(c: char) -> (r: char)
    ensures
        r == lower_char(c),
{
    match c {
        'A' => 'a',
        'B' => 'b',
        'C' => 'c',
        'D' => 'd',
        'E' => 'e',
        'F' => 'f',
        'G' => 'g',
        'H' => 'h',
        'I' => 'i',
        'J' => 'j',
        'K' => 'k',
        'L' => 'l',
        'M' => 'm',
        'N' => 'n',
        'O' => 'o',
        'P' => 'p',
        'Q' => 'q',
        'R' => 'r',
        'S' => 's',
        'T' => 't',
        'U' => 'u',
        'V' => 'v',
        'W' => 'w',
        'X' => 'x',
        'Y' => 'y',
        'Z' => 'z',
        _ => c,
    }
}

} // verus!
