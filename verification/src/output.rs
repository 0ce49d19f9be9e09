//! The text of the output file: one line per extracted string.

use vstd::prelude::*;
use crate::text::{
    append_chars, chars_of, lemma_pieces_nonempty, pieces, rows, split, string_of, strings_of,
    texts, Split,
};

verus! {

/// The text that holds each row followed by a line feed.
pub open spec fn framed(ls: Seq<Seq<char>>) -> Seq<char>
    decreases ls.len(),
{
    if ls.len() == 0 {
        Seq::empty()
    } else {
        framed(ls.drop_last()) + ls.last().push('\n')
    }
}

/// The lines of a text; a line feed at the very end opens no further line.
pub open spec fn lines_read(s: Seq<char>) -> Seq<Seq<char>> {
    let p = pieces(s, Split::Lines);
    if p.last().len() == 0 {
        p.drop_last()
    } else {
        p
    }
}

/// `l` holds no line feed.
pub open spec fn single_line(l: Seq<char>) -> bool {
    forall|i: int| 0 <= i < l.len() ==> l[i] != '\n'
}

/// Text without a line feed, put after `s`, lengthens the last line of `s`.
pub proof fn lemma_pieces_append(s: Seq<char>, t: Seq<char>)
    requires
        single_line(t),
    ensures
        pieces(s, Split::Lines).len() >= 1,
        pieces(s + t, Split::Lines) == pieces(s, Split::Lines).drop_last().push(
            pieces(s, Split::Lines).last() + t,
        ),
    decreases t.len(),
{
    let p = pieces(s, Split::Lines);
    lemma_pieces_nonempty(s, Split::Lines);
    if t.len() == 0 {
        assert(s + t =~= s);
        assert(p.last() + t =~= p.last());
        assert(p.drop_last().push(p.last()) =~= p);
    } else {
        let t0 = t.drop_last();
        lemma_pieces_append(s, t0);
        let before = pieces(s + t0, Split::Lines);
        assert((s + t).drop_last() =~= s + t0);
        assert((s + t).last() == t[t.len() - 1]);
        assert(before.drop_last() =~= p.drop_last());
        assert((p.last() + t0).push(t.last()) =~= p.last() + t);
    }
}

proof fn lemma_pieces_framed(ls: Seq<Seq<char>>)
    requires
        forall|i: int| 0 <= i < ls.len() ==> single_line(#[trigger] ls[i]),
    ensures
        pieces(framed(ls), Split::Lines) == ls.push(Seq::<char>::empty()),
    decreases ls.len(),
{
    if ls.len() == 0 {
        assert(pieces(framed(ls), Split::Lines) =~= ls.push(Seq::<char>::empty()));
    } else {
        let init = ls.drop_last();
        let last = ls.last();
        assert forall|i: int| 0 <= i < init.len() implies single_line(#[trigger] init[i]) by {
            assert(init[i] == ls[i]);
        }
        lemma_pieces_framed(init);
        assert(single_line(ls[ls.len() - 1]));
        lemma_pieces_append(framed(init), last);
        let x = framed(init) + last;
        assert(init.push(Seq::<char>::empty()).drop_last() =~= init);
        assert(Seq::<char>::empty() + last =~= last);
        assert(init.push(last) =~= ls);
        assert(pieces(x, Split::Lines) == ls);
        assert(framed(ls) =~= x.push('\n'));
        assert(x.push('\n').drop_last() =~= x);
    }
}

/// Rows without a line feed inside, written one per line and read back
/// line by line, come back as they were: as many, in the same order,
/// each unchanged.
pub proof fn lemma_round_trip(ls: Seq<Seq<char>>)
    requires
        forall|i: int| 0 <= i < ls.len() ==> single_line(#[trigger] ls[i]),
    ensures
        lines_read(framed(ls)) == ls,
{
    lemma_pieces_framed(ls);
    assert(ls.push(Seq::<char>::empty()).drop_last() =~= ls);
}

/// The text of the output file: each string on a line of its own, in
/// order, each line closed by a line feed.
pub fn file_text(outputs: &Vec<String>) -> (out: String)
    ensures
        out@ == framed(texts(outputs@)),
{
    let mut buf: Vec<char> = Vec::new();
    let mut i: usize = 0;
    proof {
        assert(texts(outputs@).subrange(0, 0) =~= Seq::<Seq<char>>::empty());
    }
    while i < outputs.len()
        invariant
            i <= outputs.len(),
            buf@ == framed(texts(outputs@).subrange(0, i as int)),
        decreases outputs.len() - i,
    {
        proof {
            assert(texts(outputs@).subrange(0, i + 1).drop_last() =~= texts(outputs@).subrange(
                0,
                i as int,
            ));
        }
        let ghost prev = buf@;
        let row = chars_of(outputs[i].as_str());
        append_chars(&mut buf, &row);
        buf.push('\n');
        proof {
            assert(buf@ =~= prev + row@.push('\n'));
        }
        i += 1;
    }
    proof {
        assert(texts(outputs@).subrange(0, i as int) =~= texts(outputs@));
    }
    string_of(&buf)
}

/// The lines of `text`, in order.
pub fn read_lines(text: &str) -> (out: Vec<String>)
    ensures
        texts(out@) == lines_read(text@),
{
    let chars = chars_of(text);
    let mut parts = split(&chars, Split::Lines);
    proof {
        lemma_pieces_nonempty(text@, Split::Lines);
    }
    let ghost all = rows(parts@);
    if parts[parts.len() - 1].len() == 0 {
        parts.pop();
        proof {
            assert(rows(parts@) =~= all.drop_last());
        }
    }
    strings_of(&parts)
}

} // verus!
