//! What the text functions mean, stated without their recursion.

use vstd::prelude::*;
use crate::text::{
    is_space, joined, lemma_pieces_nonempty, pieces, trim_back, trim_front, trimmed, Split,
};

verus! {

/// Where the trimmed text starts in `s`.
pub open spec fn trim_start(s: Seq<char>) -> int {
    s.len() - trim_front(s).len()
}

/// Where the trimmed text ends in `s`.
pub open spec fn trim_end(s: Seq<char>) -> int {
    trim_start(s) + trimmed(s).len()
}

/// Trimming at the front cuts off a run of whitespace, and what stays
/// does not start with whitespace.
pub proof fn lemma_trim_front(s: Seq<char>)
    ensures
        trim_front(s).len() <= s.len(),
        trim_front(s) == s.subrange(s.len() - trim_front(s).len(), s.len() as int),
        forall|i: int| 0 <= i < s.len() - trim_front(s).len() ==> is_space(#[trigger] s[i]),
        trim_front(s).len() > 0 ==> !is_space(trim_front(s)[0]),
    decreases s.len(),
{
    if s.len() > 0 && is_space(s[0]) {
        let r = s.drop_first();
        lemma_trim_front(r);
        let k = s.len() - trim_front(s).len();
        assert(trim_front(s) =~= s.subrange(k, s.len() as int));
        assert forall|i: int| 0 <= i < k implies is_space(#[trigger] s[i]) by {
            if i > 0 {
                assert(s[i] == r[i - 1]);
            }
        }
    } else {
        assert(s.subrange(0, s.len() as int) =~= s);
    }
}

/// Trimming at the back cuts off a run of whitespace, and what stays does
/// not end with whitespace.
pub proof fn lemma_trim_back(s: Seq<char>)
    ensures
        trim_back(s).len() <= s.len(),
        trim_back(s) == s.subrange(0, trim_back(s).len() as int),
        forall|i: int| trim_back(s).len() <= i < s.len() ==> is_space(#[trigger] s[i]),
        trim_back(s).len() > 0 ==> !is_space(trim_back(s).last()),
    decreases s.len(),
{
    if s.len() > 0 && is_space(s.last()) {
        let r = s.drop_last();
        lemma_trim_back(r);
        assert(trim_back(s) =~= s.subrange(0, trim_back(s).len() as int));
        assert forall|i: int| trim_back(s).len() <= i < s.len() implies is_space(
            #[trigger] s[i],
        ) by {
            if i < r.len() {
                assert(s[i] == r[i]);
            }
        }
    } else {
        assert(s.subrange(0, s.len() as int) =~= s);
    }
}

/// The trimmed text is the stretch of `s` from its first to its last
/// character that is not whitespace: all before it and all after it is
/// whitespace, and it neither starts nor ends with whitespace.
pub proof fn lemma_trimmed(s: Seq<char>)
    ensures
        0 <= trim_start(s) <= trim_end(s) <= s.len(),
        trimmed(s) == s.subrange(trim_start(s), trim_end(s)),
        forall|i: int| 0 <= i < trim_start(s) ==> is_space(#[trigger] s[i]),
        forall|i: int| trim_end(s) <= i < s.len() ==> is_space(#[trigger] s[i]),
        trim_start(s) < trim_end(s) ==> !is_space(s[trim_start(s)]) && !is_space(
            s[trim_end(s) - 1],
        ),
{
    let f = trim_front(s);
    let a = trim_start(s);
    lemma_trim_front(s);
    lemma_trim_back(f);
    let t = trimmed(s);
    assert(t =~= s.subrange(a, a + t.len()));
    assert forall|i: int| trim_end(s) <= i < s.len() implies is_space(#[trigger] s[i]) by {
        assert(s[i] == f[i - a]);
    }
    if a < trim_end(s) {
        assert(t[0] == f[0]);
        assert(t.last() == s[trim_end(s) - 1]);
        assert(f[0] == s[a]);
    }
}

/// No piece holds a separator.
pub proof fn lemma_pieces_hold_no_separator(s: Seq<char>, by: Split)
    ensures
        forall|i: int, j: int|
            0 <= i < pieces(s, by).len() && 0 <= j < pieces(s, by)[i].len() ==> !by.separates(
                #[trigger] pieces(s, by)[i][j],
            ),
    decreases s.len(),
{
    if s.len() > 0 {
        let before = pieces(s.drop_last(), by);
        lemma_pieces_hold_no_separator(s.drop_last(), by);
        lemma_pieces_nonempty(s.drop_last(), by);
        let p = pieces(s, by);
        assert forall|i: int, j: int| 0 <= i < p.len() && 0 <= j < p[i].len() implies !by.separates(
            #[trigger] p[i][j],
        ) by {
            if by.separates(s.last()) {
                if i < before.len() {
                    assert(p[i] == before[i]);
                    assert(!by.separates(before[i][j]));
                }
            } else {
                if i < before.len() - 1 {
                    assert(p[i] == before[i]);
                    assert(!by.separates(before[i][j]));
                } else if j < before.last().len() {
                    assert(p[i][j] == before[before.len() - 1][j]);
                    assert(!by.separates(before[before.len() - 1][j]));
                }
            }
        }
    }
}

/// The lines of a text, joined by line feeds, are the text.
pub proof fn lemma_join_lines(s: Seq<char>)
    ensures
        joined(pieces(s, Split::Lines), '\n') == s,
    decreases s.len(),
{
    let p = pieces(s, Split::Lines);
    if s.len() == 0 {
        assert(joined(p, '\n') =~= s);
    } else {
        let s0 = s.drop_last();
        let c = s.last();
        lemma_join_lines(s0);
        lemma_pieces_nonempty(s0, Split::Lines);
        let before = pieces(s0, Split::Lines);
        if c == '\n' {
            assert(p.drop_last() =~= before);
            assert(joined(p, '\n') =~= s0.push('\n'));
        } else if before.len() == 1 {
            assert(joined(p, '\n') =~= s0.push(c));
        } else {
            assert(p.drop_last() =~= before.drop_last());
            assert(joined(p, '\n') =~= s0.push(c));
        }
        assert(s0.push(c) =~= s);
    }
}

} // verus!
