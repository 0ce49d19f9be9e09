//! The tag-to-classes index of a document: for every tag name, the class
//! names seen on elements of that tag and on their direct children.

use vstd::prelude::*;
use crate::text::{split_whitespace, texts, words};

verus! {

/// What the index reads of one element of a document.
#[derive(Debug, PartialEq, Eq)]
pub struct Element {
    /// The tag name.
    pub tag: String,
    /// The element's own `class` attribute, if it has one.
    pub class_attr: Option<String>,
    /// The `class` attribute of each direct child element, in order.
    pub child_class_attrs: Vec<Option<String>>,
}

/// The mathematical value of an [`Element`].
pub struct ElementView {
    pub tag: Seq<char>,
    pub class_attr: Option<Seq<char>>,
    pub child_class_attrs: Seq<Option<Seq<char>>>,
}

/// The characters of an attribute, where there is one.
pub open spec fn attr_view(a: Option<String>) -> Option<Seq<char>> {
    match a {
        Some(s) => Some(s@),
        None => None,
    }
}

impl View for Element {
    type V = ElementView;

    open spec fn view(&self) -> ElementView {
        ElementView {
            tag: self.tag@,
            class_attr: attr_view(self.class_attr),
            child_class_attrs: Seq::new(
                self.child_class_attrs@.len(),
                |i: int| attr_view(self.child_class_attrs@[i]),
            ),
        }
    }
}

/// The elements of a document as mathematical values.
pub open spec fn element_views(doc: Seq<Element>) -> Seq<ElementView> {
    Seq::new(doc.len(), |i: int| doc[i]@)
}

/// The class tokens of one `class` attribute.
pub open spec fn attr_classes(a: Option<Seq<char>>) -> Seq<Seq<char>> {
    match a {
        Some(s) => words(s),
        None => Seq::empty(),
    }
}

/// The class tokens of the given children, child after child.
pub open spec fn child_classes(cs: Seq<Option<Seq<char>>>) -> Seq<Seq<char>>
    decreases cs.len(),
{
    if cs.len() == 0 {
        Seq::empty()
    } else {
        child_classes(cs.drop_last()) + attr_classes(cs.last())
    }
}

/// The class tokens observed at an element: its own, then those of its
/// direct children.
pub open spec fn observed(e: ElementView) -> Seq<Seq<char>> {
    attr_classes(e.class_attr) + child_classes(e.child_class_attrs)
}

/// One entry of the index: a tag name and the classes recorded for it.
#[derive(Debug, PartialEq, Eq)]
pub struct TagEntry {
    pub tag: String,
    pub classes: Vec<String>,
}

/// The mathematical value of a [`TagEntry`].
pub struct EntryView {
    pub tag: Seq<char>,
    pub classes: Seq<Seq<char>>,
}

impl View for TagEntry {
    type V = EntryView;

    open spec fn view(&self) -> EntryView {
        EntryView { tag: self.tag@, classes: texts(self.classes@) }
    }
}

/// The index: one entry per tag name.
#[derive(Debug, PartialEq, Eq)]
pub struct TagClassIndex {
    pub entries: Vec<TagEntry>,
}

impl View for TagClassIndex {
    type V = Seq<EntryView>;

    open spec fn view(&self) -> Seq<EntryView> {
        Seq::new(self.entries@.len(), |j: int| self.entries@[j]@)
    }
}

/// No tag name has two entries, and no entry names a class twice.
pub open spec fn well_formed(idx: Seq<EntryView>) -> bool {
    &&& forall|a: int, b: int|
        0 <= a < b < idx.len() ==> (#[trigger] idx[a]).tag != (#[trigger] idx[b]).tag
    &&& forall|j: int| 0 <= j < idx.len() ==> (#[trigger] idx[j]).classes.no_duplicates()
}

/// The place of the first entry for tag `t`, or the number of entries if
/// there is none.
pub open spec fn position(idx: Seq<EntryView>, t: Seq<char>) -> int
    decreases idx.len(),
{
    if idx.len() == 0 {
        0
    } else if idx[0].tag == t {
        0
    } else {
        1 + position(idx.drop_first(), t)
    }
}

/// The index has an entry for tag `t`.
pub open spec fn has_tag(idx: Seq<EntryView>, t: Seq<char>) -> bool {
    exists|j: int| 0 <= j < idx.len() && (#[trigger] idx[j]).tag == t
}

/// The classes recorded for tag `t`; none where the tag has no entry.
pub open spec fn classes_of(idx: Seq<EntryView>, t: Seq<char>) -> Seq<Seq<char>> {
    let p = position(idx, t);
    if p < idx.len() {
        idx[p].classes
    } else {
        Seq::empty()
    }
}

/// The tag names of the entries, in order.
pub open spec fn tag_names(idx: Seq<EntryView>) -> Seq<Seq<char>> {
    Seq::new(idx.len(), |j: int| idx[j].tag)
}

/// `cls` followed by the tokens of `toks` that it lacks, each once.
pub open spec fn absorb(cls: Seq<Seq<char>>, toks: Seq<Seq<char>>) -> Seq<Seq<char>>
    decreases toks.len(),
{
    if toks.len() == 0 {
        cls
    } else {
        let c = absorb(cls, toks.drop_last());
        if c.contains(toks.last()) {
            c
        } else {
            c.push(toks.last())
        }
    }
}

/// The index after the tokens `toks` were observed at an element of tag `t`.
pub open spec fn merged(idx: Seq<EntryView>, t: Seq<char>, toks: Seq<Seq<char>>) -> Seq<
    EntryView,
> {
    let p = position(idx, t);
    if p < idx.len() {
        idx.update(p, EntryView { tag: t, classes: absorb(idx[p].classes, toks) })
    } else {
        idx.push(EntryView { tag: t, classes: absorb(Seq::empty(), toks) })
    }
}

/// The index of a document: every element merged in, in the order given.
pub open spec fn index_of(doc: Seq<ElementView>) -> Seq<EntryView>
    decreases doc.len(),
{
    if doc.len() == 0 {
        Seq::empty()
    } else {
        merged(index_of(doc.drop_last()), doc.last().tag, observed(doc.last()))
    }
}

/// Some element of `doc` has tag `t`.
pub open spec fn tag_occurs(doc: Seq<ElementView>, t: Seq<char>) -> bool {
    exists|i: int| 0 <= i < doc.len() && (#[trigger] doc[i]).tag == t
}

/// Class `c` is observed at some element of `doc` with tag `t`.
pub open spec fn class_observed(doc: Seq<ElementView>, t: Seq<char>, c: Seq<char>) -> bool {
    exists|i: int|
        0 <= i < doc.len() && (#[trigger] doc[i]).tag == t && observed(doc[i]).contains(c)
}

/// The position of a tag is the place of its first entry: no entry
/// before it has the tag, and it lies within the index exactly where the
/// tag has an entry.
pub proof fn lemma_position(idx: Seq<EntryView>, t: Seq<char>)
    ensures
        0 <= position(idx, t) <= idx.len(),
        position(idx, t) < idx.len() ==> idx[position(idx, t)].tag == t,
        forall|j: int| 0 <= j < position(idx, t) ==> (#[trigger] idx[j]).tag != t,
        has_tag(idx, t) <==> position(idx, t) < idx.len(),
    decreases idx.len(),
{
    if idx.len() > 0 && idx[0].tag != t {
        let rest = idx.drop_first();
        lemma_position(rest, t);
        assert forall|j: int| 0 <= j < position(idx, t) implies (#[trigger] idx[j]).tag != t by {
            if j > 0 {
                assert(idx[j] == rest[j - 1]);
            }
        }
    }
    let p = position(idx, t);
    if has_tag(idx, t) {
        let j = choose|j: int| 0 <= j < idx.len() && (#[trigger] idx[j]).tag == t;
        assert(p <= j);
    }
    if p < idx.len() {
        assert(idx[p].tag == t);
    }
}

/// The first place at which tag `t` stands is its position.
pub proof fn lemma_position_is(idx: Seq<EntryView>, t: Seq<char>, p: int)
    requires
        0 <= p <= idx.len(),
        p < idx.len() ==> idx[p].tag == t,
        forall|j: int| 0 <= j < p ==> (#[trigger] idx[j]).tag != t,
    ensures
        position(idx, t) == p,
{
    lemma_position(idx, t);
    let q = position(idx, t);
    if q < p {
        assert(idx[q].tag == t);
    }
}

/// Absorbing tokens into a list without repetitions leaves it without
/// repetitions, and it then holds what it held and every token.
pub proof fn lemma_absorb(cls: Seq<Seq<char>>, toks: Seq<Seq<char>>)
    requires
        cls.no_duplicates(),
    ensures
        absorb(cls, toks).no_duplicates(),
        forall|c: Seq<char>| #[trigger]
            absorb(cls, toks).contains(c) <==> cls.contains(c) || toks.contains(c),
    decreases toks.len(),
{
    let r = absorb(cls, toks);
    if toks.len() == 0 {
        assert forall|c: Seq<char>| #[trigger] r.contains(c) <==> cls.contains(c) || toks.contains(
            c,
        ) by {}
    } else {
        let init = toks.drop_last();
        let last = toks.last();
        lemma_absorb(cls, init);
        let prev = absorb(cls, init);
        assert forall|c: Seq<char>| #[trigger] r.contains(c) <==> cls.contains(c) || toks.contains(
            c,
        ) by {
            if toks.contains(c) {
                let k = choose|k: int| 0 <= k < toks.len() && toks[k] == c;
                if k < init.len() {
                    assert(init[k] == c);
                }
            }
            if init.contains(c) {
                let k = choose|k: int| 0 <= k < init.len() && init[k] == c;
                assert(toks[k] == c);
            }
            assert(toks[toks.len() - 1] == last);
            if !prev.contains(last) {
                if r.contains(c) {
                    let k = choose|k: int| 0 <= k < r.len() && r[k] == c;
                    if k < prev.len() {
                        assert(prev[k] == c);
                    }
                }
                if prev.contains(c) {
                    let k = choose|k: int| 0 <= k < prev.len() && prev[k] == c;
                    assert(r[k] == c);
                }
                assert(r[prev.len() as int] == last);
            }
        }
        if !prev.contains(last) {
            assert forall|a: int, b: int| 0 <= a < r.len() && 0 <= b < r.len() && a != b implies r[a]
                != r[b] by {
                if a < prev.len() {
                    assert(prev[a] == r[a]);
                }
                if b < prev.len() {
                    assert(prev[b] == r[b]);
                }
            }
        }
    }
}

/// What merging one element's observation does to a well-formed index.
pub proof fn lemma_merged(idx: Seq<EntryView>, t: Seq<char>, toks: Seq<Seq<char>>)
    requires
        well_formed(idx),
    ensures
        well_formed(merged(idx, t, toks)),
        forall|u: Seq<char>| #[trigger]
            has_tag(merged(idx, t, toks), u) <==> has_tag(idx, u) || u == t,
        forall|u: Seq<char>| #[trigger]
            classes_of(merged(idx, t, toks), u) == if u == t {
                absorb(classes_of(idx, t), toks)
            } else {
                classes_of(idx, u)
            },
{
    let m = merged(idx, t, toks);
    let p = position(idx, t);
    lemma_position(idx, t);
    if p < idx.len() {
        lemma_absorb(idx[p].classes, toks);
    } else {
        lemma_absorb(Seq::empty(), toks);
    }
    assert forall|j: int| 0 <= j < m.len() implies (#[trigger] m[j]).tag == (if j < idx.len() {
        idx[j].tag
    } else {
        t
    }) by {}
    assert forall|a: int, b: int| 0 <= a < b < m.len() implies (#[trigger] m[a]).tag != (
    #[trigger] m[b]).tag by {
        if b < idx.len() {
            assert(idx[a].tag != idx[b].tag);
        } else {
            assert(idx[a].tag != t);
        }
    }
    assert forall|j: int| 0 <= j < m.len() implies (#[trigger] m[j]).classes.no_duplicates() by {
        if j != p {
            assert(m[j] == idx[j]);
        }
    }
    assert forall|u: Seq<char>| #[trigger] has_tag(m, u) <==> has_tag(idx, u) || u == t by {
        if has_tag(m, u) {
            let j = choose|j: int| 0 <= j < m.len() && (#[trigger] m[j]).tag == u;
            if j < idx.len() {
                assert(idx[j].tag == u);
            }
        }
        if has_tag(idx, u) {
            let j = choose|j: int| 0 <= j < idx.len() && (#[trigger] idx[j]).tag == u;
            assert(m[j].tag == u);
        }
        if u == t {
            assert(m[p].tag == t);
        }
    }
    assert forall|u: Seq<char>| #[trigger]
        classes_of(m, u) == if u == t {
            absorb(classes_of(idx, t), toks)
        } else {
            classes_of(idx, u)
        } by {
        lemma_position(idx, u);
        let q = position(idx, u);
        if u == t {
            assert forall|j: int| 0 <= j < p implies (#[trigger] m[j]).tag != u by {
                assert(idx[j].tag != u);
            }
            lemma_position_is(m, u, p);
        } else if q < idx.len() {
            assert forall|j: int| 0 <= j < q implies (#[trigger] m[j]).tag != u by {
                assert(idx[j].tag != u);
            }
            assert(m[q].tag == u);
            lemma_position_is(m, u, q);
            assert(m[q] == idx[q]);
        } else {
            assert forall|j: int| 0 <= j < m.len() implies (#[trigger] m[j]).tag != u by {
                if j < idx.len() {
                    assert(idx[j].tag != u);
                }
            }
            lemma_position_is(m, u, m.len() as int);
        }
    }
}

/// The index of a document has one entry for each tag name that occurs in
/// it and for no other; no entry names a class twice; and the classes of a
/// tag's entry are those observed at the elements of that tag.
pub proof fn lemma_index_of(doc: Seq<ElementView>)
    ensures
        well_formed(index_of(doc)),
        forall|t: Seq<char>| #[trigger] has_tag(index_of(doc), t) <==> tag_occurs(doc, t),
        forall|t: Seq<char>, c: Seq<char>| #[trigger]
            classes_of(index_of(doc), t).contains(c) <==> class_observed(doc, t, c),
    decreases doc.len(),
{
    let idx = index_of(doc);
    if doc.len() == 0 {
        assert forall|t: Seq<char>, c: Seq<char>| #[trigger]
            classes_of(idx, t).contains(c) <==> class_observed(doc, t, c) by {}
    } else {
        let init = doc.drop_last();
        let e = doc.last();
        let before = index_of(init);
        lemma_index_of(init);
        lemma_merged(before, e.tag, observed(e));
        assert(doc[doc.len() - 1] == e);
        assert forall|t: Seq<char>| #[trigger] has_tag(idx, t) <==> tag_occurs(doc, t) by {
            assert(has_tag(idx, t) <==> has_tag(before, t) || t == e.tag);
            assert(has_tag(before, t) <==> tag_occurs(init, t));
            if tag_occurs(init, t) {
                let i = choose|i: int| 0 <= i < init.len() && (#[trigger] init[i]).tag == t;
                assert(doc[i].tag == t);
            }
            if tag_occurs(doc, t) {
                let i = choose|i: int| 0 <= i < doc.len() && (#[trigger] doc[i]).tag == t;
                if i < init.len() {
                    assert(init[i].tag == t);
                }
            }
        }
        assert forall|t: Seq<char>, c: Seq<char>| #[trigger]
            classes_of(idx, t).contains(c) <==> class_observed(doc, t, c) by {
            assert(classes_of(before, t).contains(c) <==> class_observed(init, t, c));
            lemma_position(before, t);
            assert(well_formed(before));
            if position(before, t) < before.len() {
                assert(before[position(before, t)].classes.no_duplicates());
            }
            lemma_absorb(classes_of(before, t), observed(e));
            assert(classes_of(idx, t) == if t == e.tag {
                absorb(classes_of(before, t), observed(e))
            } else {
                classes_of(before, t)
            });
            if class_observed(init, t, c) {
                let i = choose|i: int|
                    0 <= i < init.len() && (#[trigger] init[i]).tag == t && observed(
                        init[i],
                    ).contains(c);
                assert(doc[i].tag == t && observed(doc[i]).contains(c));
            }
            if class_observed(doc, t, c) {
                let i = choose|i: int|
                    0 <= i < doc.len() && (#[trigger] doc[i]).tag == t && observed(
                        doc[i],
                    ).contains(c);
                if i < init.len() {
                    assert(init[i].tag == t && observed(init[i]).contains(c));
                }
            }
        }
    }
}

/// An element without a `class` attribute of its own or on any direct
/// child has no class observed at it.
pub proof fn lemma_classless(e: ElementView)
    requires
        e.class_attr is None,
        forall|k: int| 0 <= k < e.child_class_attrs.len() ==> e.child_class_attrs[k] is None,
    ensures
        observed(e) == Seq::<Seq<char>>::empty(),
{
    lemma_classless_children(e.child_class_attrs);
    assert(observed(e) =~= Seq::<Seq<char>>::empty());
}

proof fn lemma_classless_children(cs: Seq<Option<Seq<char>>>)
    requires
        forall|k: int| 0 <= k < cs.len() ==> cs[k] is None,
    ensures
        child_classes(cs) == Seq::<Seq<char>>::empty(),
    decreases cs.len(),
{
    if cs.len() > 0 {
        lemma_classless_children(cs.drop_last());
        assert(child_classes(cs) =~= Seq::<Seq<char>>::empty());
    }
}

/// A tag whose elements carry no `class` attribute, neither themselves
/// nor on a direct child, has an entry in the index, and that entry is
/// empty.
pub proof fn lemma_classless_tag_has_empty_entry(doc: Seq<ElementView>, t: Seq<char>)
    requires
        tag_occurs(doc, t),
        forall|i: int|
            0 <= i < doc.len() && (#[trigger] doc[i]).tag == t ==> doc[i].class_attr is None
                && forall|k: int|
                0 <= k < doc[i].child_class_attrs.len() ==> doc[i].child_class_attrs[k] is None,
    ensures
        has_tag(index_of(doc), t),
        classes_of(index_of(doc), t) == Seq::<Seq<char>>::empty(),
{
    lemma_index_of(doc);
    let cls = classes_of(index_of(doc), t);
    if cls.len() > 0 {
        let c = cls[0];
        assert(cls.contains(c));
        assert(class_observed(doc, t, c));
        let i = choose|i: int|
            0 <= i < doc.len() && (#[trigger] doc[i]).tag == t && observed(doc[i]).contains(c);
        lemma_classless(doc[i]);
    }
    assert(cls =~= Seq::<Seq<char>>::empty());
}

/// Whether `list` holds a string with the characters of `s`.
pub fn contains_text(list: &Vec<String>, s: &String) -> (r: bool)
    ensures
        r == texts(list@).contains(s@),
{
    let mut i: usize = 0;
    while i < list.len()
        invariant
            i <= list.len(),
            forall|k: int| 0 <= k < i ==> texts(list@)[k] != s@,
        decreases list.len() - i,
    {
        if list[i] == *s {
            assert(texts(list@)[i as int] == s@);
            return true;
        }
        i += 1;
    }
    false
}

/// Appends copies of the strings of `more` to `out`.
pub fn append_strings(out: &mut Vec<String>, more: &Vec<String>)
    ensures
        texts(final(out)@) == texts(old(out)@) + texts(more@),
{
    let mut i: usize = 0;
    proof {
        assert(texts(out@) =~= texts(old(out)@) + texts(more@).subrange(0, 0));
    }
    while i < more.len()
        invariant
            i <= more.len(),
            texts(out@) == texts(old(out)@) + texts(more@).subrange(0, i as int),
        decreases more.len() - i,
    {
        let ghost prev = texts(out@);
        let s = more[i].clone();
        out.push(s);
        proof {
            assert(texts(out@) =~= prev.push(s@));
            assert(prev.push(s@) =~= texts(old(out)@) + texts(more@).subrange(0, i + 1));
        }
        i += 1;
    }
    proof {
        assert(texts(more@).subrange(0, i as int) =~= texts(more@));
    }
}

/// The class tokens observed at `e`: its own, then those of its direct
/// children, in order and with repetitions.
pub fn observed_classes(e: &Element) -> (out: Vec<String>)
    ensures
        texts(out@) == observed(e@),
{
    let mut out: Vec<String> = Vec::new();
    match &e.class_attr {
        Some(s) => {
            let toks = split_whitespace(s.as_str());
            append_strings(&mut out, &toks);
        },
        None => {},
    }
    let ghost own = texts(out@);
    let ghost kids = e@.child_class_attrs;
    proof {
        assert(own =~= attr_classes(e@.class_attr));
        assert(texts(out@) =~= own + child_classes(kids.subrange(0, 0)));
    }
    let mut i: usize = 0;
    while i < e.child_class_attrs.len()
        invariant
            i <= e.child_class_attrs.len(),
            kids == e@.child_class_attrs,
            kids.len() == e.child_class_attrs.len(),
            texts(out@) == own + child_classes(kids.subrange(0, i as int)),
        decreases e.child_class_attrs.len() - i,
    {
        proof {
            assert(kids.subrange(0, i + 1).drop_last() =~= kids.subrange(0, i as int));
            assert(kids.subrange(0, i + 1).last() == attr_view(e.child_class_attrs@[i as int]));
        }
        let ghost prev = texts(out@);
        match &e.child_class_attrs[i] {
            Some(s) => {
                let toks = split_whitespace(s.as_str());
                append_strings(&mut out, &toks);
            },
            None => {},
        }
        proof {
            assert(texts(out@) =~= prev + attr_classes(kids[i as int]));
            assert(texts(out@) =~= own + child_classes(kids.subrange(0, i + 1)));
        }
        i += 1;
    }
    proof {
        assert(kids.subrange(0, i as int) =~= kids);
    }
    out
}

/// Adds to `classes` each token of `toks` that it does not hold yet.
pub fn absorb_classes(classes: &mut Vec<String>, toks: &Vec<String>)
    ensures
        texts(final(classes)@) == absorb(texts(old(classes)@), texts(toks@)),
{
    let mut i: usize = 0;
    proof {
        assert(texts(toks@).subrange(0, 0) =~= Seq::<Seq<char>>::empty());
    }
    while i < toks.len()
        invariant
            i <= toks.len(),
            texts(classes@) == absorb(texts(old(classes)@), texts(toks@).subrange(0, i as int)),
        decreases toks.len() - i,
    {
        proof {
            assert(texts(toks@).subrange(0, i + 1).drop_last() =~= texts(toks@).subrange(
                0,
                i as int,
            ));
        }
        if !contains_text(classes, &toks[i]) {
            let ghost prev = texts(classes@);
            let s = toks[i].clone();
            classes.push(s);
            proof {
                assert(texts(classes@) =~= prev.push(s@));
            }
        }
        i += 1;
    }
    proof {
        assert(texts(toks@).subrange(0, i as int) =~= texts(toks@));
    }
}

impl TagClassIndex {
    /// The index of the empty document.
    pub fn new() -> (idx: TagClassIndex)
        ensures
            idx@ == Seq::<EntryView>::empty(),
    {
        let idx = TagClassIndex { entries: Vec::new() };
        proof {
            assert(idx@ =~= Seq::<EntryView>::empty());
        }
        idx
    }

    /// The place of the entry for `tag`, or the number of entries if
    /// there is none.
    pub fn find(&self, tag: &String) -> (p: usize)
        ensures
            p == position(self@, tag@),
            p <= self.entries.len(),
    {
        let mut j: usize = 0;
        while j < self.entries.len() && !(self.entries[j].tag == *tag)
            invariant
                j <= self.entries.len(),
                forall|k: int| 0 <= k < j ==> (#[trigger] self@[k]).tag != tag@,
            decreases self.entries.len() - j,
        {
            j += 1;
        }
        proof {
            lemma_position_is(self@, tag@, j as int);
        }
        j
    }

    /// Whether the index has an entry for `tag`.
    pub fn contains_tag(&self, tag: &String) -> (r: bool)
        ensures
            r == has_tag(self@, tag@),
    {
        let p = self.find(tag);
        proof {
            lemma_position(self@, tag@);
        }
        p < self.entries.len()
    }

    /// The tag names of the entries, in order.
    pub fn tags(&self) -> (out: Vec<String>)
        ensures
            texts(out@) == tag_names(self@),
    {
        let mut out: Vec<String> = Vec::new();
        let mut j: usize = 0;
        while j < self.entries.len()
            invariant
                j <= self.entries.len(),
                texts(out@) == tag_names(self@).subrange(0, j as int),
            decreases self.entries.len() - j,
        {
            let ghost prev = texts(out@);
            let s = self.entries[j].tag.clone();
            out.push(s);
            proof {
                assert(texts(out@) =~= prev.push(s@));
                assert(prev.push(s@) =~= tag_names(self@).subrange(0, j + 1));
            }
            j += 1;
        }
        proof {
            assert(tag_names(self@).subrange(0, j as int) =~= tag_names(self@));
        }
        out
    }
}

/// Records one element in the index: its tag gets an entry if it has
/// none, and that entry takes up the classes observed at the element that
/// it does not hold yet.
pub fn process_elements(e: &Element, index: &mut TagClassIndex)
    ensures
        final(index)@ == merged(old(index)@, e@.tag, observed(e@)),
{
    let toks = observed_classes(e);
    let p = index.find(&e.tag);
    let ghost before = index@;
    if p < index.entries.len() {
        let mut entry = index.entries.remove(p);
        absorb_classes(&mut entry.classes, &toks);
        index.entries.insert(p, entry);
        proof {
            lemma_position(before, e@.tag);
            assert(index@ =~= merged(before, e@.tag, observed(e@)));
        }
    } else {
        let mut classes: Vec<String> = Vec::new();
        absorb_classes(&mut classes, &toks);
        let entry = TagEntry { tag: e.tag.clone(), classes };
        index.entries.push(entry);
        proof {
            assert(texts(Seq::<String>::empty()) =~= Seq::<Seq<char>>::empty());
            assert(index@ =~= merged(before, e@.tag, observed(e@)));
        }
    }
}

/// Builds the index of a document from its elements, taken in the order
/// given. Entries stand in the order in which their tags first occur, and
/// the classes of an entry in the order in which they are first observed.
/// Each tag name that occurs gets exactly one entry, also where no
/// class is observed for it; no entry names a class twice; and an entry
/// holds exactly the classes observed at the elements of its tag.
pub fn build_index(doc: &Vec<Element>) -> (idx: TagClassIndex)
    ensures
        idx@ == index_of(element_views(doc@)),
        well_formed(idx@),
        forall|t: Seq<char>| #[trigger] has_tag(idx@, t) <==> tag_occurs(element_views(doc@), t),
        forall|t: Seq<char>, c: Seq<char>| #[trigger]
            classes_of(idx@, t).contains(c) <==> class_observed(element_views(doc@), t, c),
{
    let ghost views = element_views(doc@);
    let mut idx = TagClassIndex::new();
    let mut i: usize = 0;
    proof {
        assert(views.subrange(0, 0) =~= Seq::<ElementView>::empty());
    }
    while i < doc.len()
        invariant
            i <= doc.len(),
            views == element_views(doc@),
            idx@ == index_of(views.subrange(0, i as int)),
        decreases doc.len() - i,
    {
        proof {
            assert(views.subrange(0, i + 1).drop_last() =~= views.subrange(0, i as int));
            assert(views.subrange(0, i + 1).last() == doc@[i as int]@);
        }
        process_elements(&doc[i], &mut idx);
        i += 1;
    }
    proof {
        assert(views.subrange(0, i as int) =~= views);
        lemma_index_of(views);
    }
    idx
}

} // verus!
