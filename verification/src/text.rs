//! Character-level text handling: whitespace, trimming, splitting and
//! joining, all stated over sequences of characters.

use vstd::prelude::*;

verus! {

/// The characters with the Unicode `White_Space` property.
pub open spec fn is_space(c: char) -> bool {
    let n = c as u32;
    (0x09 <= n && n <= 0x0D) || n == 0x20 || n == 0x85 || n == 0xA0 || n == 0x1680
        || (0x2000 <= n && n <= 0x200A) || n == 0x2028 || n == 0x2029 || n == 0x202F
        || n == 0x205F || n == 0x3000
}

/// Whether `c` is a whitespace character.
pub fn is_whitespace(c: char) -> (r: bool)
    ensures
        r == is_space(c),
{
    let n: u32 = c as u32;
    (0x09 <= n && n <= 0x0D) || n == 0x20 || n == 0x85 || n == 0xA0 || n == 0x1680
        || (0x2000 <= n && n <= 0x200A) || n == 0x2028 || n == 0x2029 || n == 0x202F
        || n == 0x205F || n == 0x3000
}

/// `s` without its leading whitespace.
pub open spec fn trim_front(s: Seq<char>) -> Seq<char>
    decreases s.len(),
{
    if s.len() > 0 && is_space(s[0]) {
        trim_front(s.drop_first())
    } else {
        s
    }
}

/// `s` without its trailing whitespace.
pub open spec fn trim_back(s: Seq<char>) -> Seq<char>
    decreases s.len(),
{
    if s.len() > 0 && is_space(s.last()) {
        trim_back(s.drop_last())
    } else {
        s
    }
}

/// `s` without leading and trailing whitespace.
pub open spec fn trimmed(s: Seq<char>) -> Seq<char> {
    trim_back(trim_front(s))
}

/// What a text is split at.
#[derive(Clone, Copy, Debug)]
pub enum Split {
    /// At every line feed.
    Lines,
    /// At every whitespace character.
    Words,
}

impl Split {
    /// Whether a text is split at `c`.
    pub open spec fn separates(self, c: char) -> bool {
        match self {
            Split::Lines => c == '\n',
            Split::Words => is_space(c),
        }
    }

    /// Whether a text is split at `c`.
    pub fn is_separator(self, c: char) -> (r: bool)
        ensures
            r == self.separates(c),
    {
        match self {
            Split::Lines => c == '\n',
            Split::Words => is_whitespace(c),
        }
    }
}

/// The pieces of `s` between separators, in order. A text with `k`
/// separators has `k + 1` pieces, some of which may be empty.
pub open spec fn pieces(s: Seq<char>, by: Split) -> Seq<Seq<char>>
    decreases s.len(),
{
    if s.len() == 0 {
        seq![Seq::<char>::empty()]
    } else {
        let before = pieces(s.drop_last(), by);
        if by.separates(s.last()) {
            before.push(Seq::<char>::empty())
        } else {
            before.drop_last().push(before.last().push(s.last()))
        }
    }
}

/// Every text has at least one piece.
pub proof fn lemma_pieces_nonempty(s: Seq<char>, by: Split)
    ensures
        pieces(s, by).len() >= 1,
    decreases s.len(),
{
    if s.len() > 0 {
        lemma_pieces_nonempty(s.drop_last(), by);
    }
}

/// The rows of `ls` that are not empty, in order.
pub open spec fn nonempty(ls: Seq<Seq<char>>) -> Seq<Seq<char>>
    decreases ls.len(),
{
    if ls.len() == 0 {
        Seq::<Seq<char>>::empty()
    } else if ls.last().len() > 0 {
        nonempty(ls.drop_last()).push(ls.last())
    } else {
        nonempty(ls.drop_last())
    }
}

/// Every row of `ls`, trimmed.
pub open spec fn trim_each(ls: Seq<Seq<char>>) -> Seq<Seq<char>> {
    Seq::new(ls.len(), |i: int| trimmed(ls[i]))
}

/// The rows of `ls` with `sep` between each two neighbours.
pub open spec fn joined(ls: Seq<Seq<char>>, sep: char) -> Seq<char>
    decreases ls.len(),
{
    if ls.len() == 0 {
        Seq::<char>::empty()
    } else if ls.len() == 1 {
        ls[0]
    } else {
        joined(ls.drop_last(), sep).push(sep) + ls.last()
    }
}

/// The whitespace-delimited tokens of `s`.
pub open spec fn words(s: Seq<char>) -> Seq<Seq<char>> {
    nonempty(pieces(s, Split::Words))
}

/// The trimmed lines of `s` that hold anything but whitespace.
pub open spec fn kept_lines(s: Seq<char>) -> Seq<Seq<char>> {
    nonempty(trim_each(pieces(s, Split::Lines)))
}

/// The kept lines of `s`, separated by line feeds.
pub open spec fn cleaned(s: Seq<char>) -> Seq<char> {
    joined(kept_lines(s), '\n')
}

/// The character sequences held by the rows of `v`.
pub open spec fn rows(v: Seq<Vec<char>>) -> Seq<Seq<char>> {
    Seq::new(v.len(), |i: int| v[i]@)
}

/// The character sequences held by the strings of `v`.
pub open spec fn texts(v: Seq<String>) -> Seq<Seq<char>> {
    Seq::new(v.len(), |i: int| v[i]@)
}

/// The characters of a string slice, by `str::chars`, collected into a
/// vector: as many characters, in the same order.
#[verifier::external_body]
pub(crate) fn chars_of(s: &str) -> (out: Vec<char>)
    ensures
        out@ == s@,
{
    s.chars().collect()
}

/// A string built from characters by `String::from_iter`: as many
/// characters, in the same order.
#[verifier::external_body]
pub(crate) fn string_of(v: &Vec<char>) -> (out: String)
    ensures
        out@ == v@,
{
    String::from_iter(v.iter())
}

/// `s` without leading and trailing whitespace.
pub fn trim(s: &Vec<char>) -> (out: Vec<char>)
    ensures
        out@ == trimmed(s@),
{
    let n = s.len();
    let mut a: usize = 0;
    proof {
        assert(s@.subrange(0, n as int) =~= s@);
    }
    while a < n && is_whitespace(s[a])
        invariant
            a <= n,
            n == s.len(),
            trim_front(s@) == trim_front(s@.subrange(a as int, n as int)),
        decreases n - a,
    {
        proof {
            assert(s@.subrange(a as int, n as int).drop_first() =~= s@.subrange(a + 1, n as int));
        }
        a += 1;
    }
    let mut b: usize = n;
    while b > a && is_whitespace(s[b - 1])
        invariant
            a <= b <= n,
            n == s.len(),
            trimmed(s@) == trim_back(s@.subrange(a as int, b as int)),
        decreases b,
    {
        proof {
            assert(s@.subrange(a as int, b as int).drop_last() =~= s@.subrange(
                a as int,
                b - 1,
            ));
        }
        b -= 1;
    }
    let mut out: Vec<char> = Vec::new();
    let mut i: usize = a;
    while i < b
        invariant
            a <= i <= b <= n,
            n == s.len(),
            out@ == s@.subrange(a as int, i as int),
        decreases b - i,
    {
        out.push(s[i]);
        proof {
            assert(out@ =~= s@.subrange(a as int, i + 1));
        }
        i += 1;
    }
    out
}

/// The pieces of `s` between separators, in order.
pub fn split(s: &Vec<char>, by: Split) -> (out: Vec<Vec<char>>)
    ensures
        rows(out@) == pieces(s@, by),
{
    let mut done: Vec<Vec<char>> = Vec::new();
    let mut cur: Vec<char> = Vec::new();
    let mut i: usize = 0;
    proof {
        assert(rows(done@).push(cur@) =~= pieces(s@.subrange(0, 0), by));
    }
    while i < s.len()
        invariant
            i <= s.len(),
            rows(done@).push(cur@) == pieces(s@.subrange(0, i as int), by),
        decreases s.len() - i,
    {
        let ghost before = rows(done@).push(cur@);
        proof {
            assert(s@.subrange(0, i + 1).drop_last() =~= s@.subrange(0, i as int));
        }
        if by.is_separator(s[i]) {
            done.push(cur);
            cur = Vec::new();
            proof {
                assert(rows(done@).push(cur@) =~= before.push(Seq::<char>::empty()));
            }
        } else {
            cur.push(s[i]);
            proof {
                assert(rows(done@).push(cur@) =~= before.drop_last().push(
                    before.last().push(s@[i as int]),
                ));
            }
        }
        i += 1;
    }
    proof {
        assert(s@.subrange(0, i as int) =~= s@);
        assert(rows(done@.push(cur)) =~= rows(done@).push(cur@));
    }
    done.push(cur);
    done
}

/// Appends the characters of `row` to `out`.
pub fn append_chars(out: &mut Vec<char>, row: &Vec<char>)
    ensures
        final(out)@ == old(out)@ + row@,
{
    let mut k: usize = 0;
    while k < row.len()
        invariant
            k <= row.len(),
            out@ == old(out)@ + row@.subrange(0, k as int),
        decreases row.len() - k,
    {
        out.push(row[k]);
        proof {
            assert(out@ =~= old(out)@ + row@.subrange(0, k + 1));
        }
        k += 1;
    }
    proof {
        assert(row@.subrange(0, k as int) =~= row@);
    }
}

/// The rows of `ls` with `sep` between each two neighbours.
pub fn join(ls: &Vec<Vec<char>>, sep: char) -> (out: Vec<char>)
    ensures
        out@ == joined(rows(ls@), sep),
{
    let mut out: Vec<char> = Vec::new();
    let mut i: usize = 0;
    while i < ls.len()
        invariant
            i <= ls.len(),
            out@ == joined(rows(ls@).subrange(0, i as int), sep),
        decreases ls.len() - i,
    {
        proof {
            assert(rows(ls@).subrange(0, i + 1).drop_last() =~= rows(ls@).subrange(0, i as int));
        }
        if i > 0 {
            out.push(sep);
        }
        append_chars(&mut out, &ls[i]);
        proof {
            assert(out@ =~= joined(rows(ls@).subrange(0, i + 1), sep));
        }
        i += 1;
    }
    proof {
        assert(rows(ls@).subrange(0, i as int) =~= rows(ls@));
    }
    out
}

/// Keeps the rows that are not empty; with `trim_first`, each row is
/// trimmed before it is looked at.
pub fn keep_nonempty(ls: &Vec<Vec<char>>, trim_first: bool) -> (out: Vec<Vec<char>>)
    ensures
        trim_first ==> rows(out@) == nonempty(trim_each(rows(ls@))),
        !trim_first ==> rows(out@) == nonempty(rows(ls@)),
{
    let ghost src = if trim_first { trim_each(rows(ls@)) } else { rows(ls@) };
    let mut out: Vec<Vec<char>> = Vec::new();
    let mut i: usize = 0;
    proof {
        assert(rows(out@) =~= nonempty(src.subrange(0, 0)));
    }
    while i < ls.len()
        invariant
            i <= ls.len(),
            src == if trim_first { trim_each(rows(ls@)) } else { rows(ls@) },
            src.len() == ls.len(),
            rows(out@) == nonempty(src.subrange(0, i as int)),
        decreases ls.len() - i,
    {
        proof {
            assert(src.subrange(0, i + 1).drop_last() =~= src.subrange(0, i as int));
        }
        let row: Vec<char> = if trim_first { trim(&ls[i]) } else { ls[i].clone() };
        assert(row@ == src[i as int]);
        if row.len() > 0 {
            let ghost prev = rows(out@);
            out.push(row);
            proof {
                assert(rows(out@) =~= prev.push(row@));
            }
        }
        i += 1;
    }
    proof {
        assert(src.subrange(0, i as int) =~= src);
    }
    out
}

/// The whitespace-delimited tokens of `s`, in order.
pub fn split_whitespace(s: &str) -> (out: Vec<String>)
    ensures
        texts(out@) == words(s@),
{
    let chars = chars_of(s);
    let parts = split(&chars, Split::Words);
    let kept = keep_nonempty(&parts, false);
    strings_of(&kept)
}

/// Each row as a string.
pub fn strings_of(ls: &Vec<Vec<char>>) -> (out: Vec<String>)
    ensures
        texts(out@) == rows(ls@),
{
    let mut out: Vec<String> = Vec::new();
    let mut i: usize = 0;
    proof {
        assert(texts(out@) =~= rows(ls@).subrange(0, 0));
    }
    while i < ls.len()
        invariant
            i <= ls.len(),
            texts(out@) == rows(ls@).subrange(0, i as int),
        decreases ls.len() - i,
    {
        let s = string_of(&ls[i]);
        let ghost prev = texts(out@);
        out.push(s);
        proof {
            assert(texts(out@) =~= prev.push(s@));
            assert(prev.push(s@) =~= rows(ls@).subrange(0, i + 1));
        }
        i += 1;
    }
    proof {
        assert(rows(ls@).subrange(0, i as int) =~= rows(ls@));
    }
    out
}

/// The kept lines of `chars`, separated by line feeds.
pub fn clean_chars(chars: &Vec<char>) -> (out: Vec<char>)
    ensures
        out@ == cleaned(chars@),
{
    let lines = split(chars, Split::Lines);
    let kept = keep_nonempty(&lines, true);
    join(&kept, '\n')
}

/// Drops the lines of `content` that are empty or hold only whitespace,
/// trims the others and joins them with line feeds.
pub fn clean_content(content: &str) -> (out: String)
    ensures
        out@ == cleaned(content@),
{
    let chars = chars_of(content);
    let text = clean_chars(&chars);
    string_of(&text)
}

} // verus!
