//! Resolution of what a user typed, a category and a choice within it,
//! into the name of a tag, a class or an id.

use vstd::prelude::*;
use crate::index::{contains_text, has_tag, tag_names, TagClassIndex};
use crate::text::{append_chars, chars_of, string_of, texts, trim, trimmed};

verus! {

/// Whether `char::is_numeric` holds of a character.
pub uninterp spec fn numeric_char(c: char) -> bool;

/// `char::is_numeric`: whether the character belongs to one of the
/// Unicode general categories for numbers. Among the ASCII characters
/// these are the ten decimal digits and no other.
#[verifier::external_body]
fn is_numeric(c: char) -> (r: bool)
    ensures
        r == numeric_char(c),
        (c as u32) < 128 ==> r == is_digit(c),
{
    c.is_numeric()
}

/// An ASCII decimal digit.
pub open spec fn is_digit(c: char) -> bool {
    48 <= (c as u32) && (c as u32) <= 57
}

/// Every character of `s` is numeric; so is the empty text.
pub open spec fn numeric_text(s: Seq<char>) -> bool {
    forall|i: int| 0 <= i < s.len() ==> numeric_char(#[trigger] s[i])
}

/// A non-empty run of ASCII decimal digits.
pub open spec fn is_decimal(s: Seq<char>) -> bool {
    s.len() > 0 && forall|i: int| 0 <= i < s.len() ==> is_digit(#[trigger] s[i])
}

/// The number that a run of decimal digits writes.
pub open spec fn decimal(s: Seq<char>) -> int
    decreases s.len(),
{
    if s.len() == 0 {
        0
    } else {
        decimal(s.drop_last()) * 10 + ((s.last() as u32) - 48)
    }
}

/// The index that `s` writes into a list of `limit` items, if it writes
/// one.
pub open spec fn parsed_index(s: Seq<char>, limit: int) -> Option<int> {
    if is_decimal(s) && decimal(s) < limit {
        Some(decimal(s))
    } else {
        None
    }
}

/// The item of `list` that `choice` picks: by index where the choice is
/// numeric, else by exact name.
pub open spec fn picked(list: Seq<Seq<char>>, choice: Seq<char>, numeric: bool) -> Option<
    Seq<char>,
> {
    if numeric {
        match parsed_index(choice, list.len() as int) {
            Some(i) => Some(list[i]),
            None => None,
        }
    } else if list.contains(choice) {
        Some(choice)
    } else {
        None
    }
}

/// `c` is the lower-case letter `k` or its ASCII capital.
pub open spec fn same_letter(c: char, k: char) -> bool {
    c == k || (65 <= (c as u32) && (c as u32) <= 90 && (c as u32) + 32 == (k as u32))
}

/// `s` is the lower-case word `word` but for the case of ASCII letters.
pub open spec fn spells(s: Seq<char>, word: Seq<char>) -> bool {
    s.len() == word.len() && forall|i: int|
        0 <= i < s.len() ==> same_letter(#[trigger] s[i], word[i])
}

/// The categories a user can name.
#[derive(Clone, Copy, Debug, PartialEq, Eq, Structural)]
pub enum Category {
    Classes,
    Id,
    Tag,
    Quit,
    Unknown,
}

/// The four category words.
pub open spec fn word_classes() -> Seq<char> {
    seq!['c', 'l', 'a', 's', 's', 'e', 's']
}

pub open spec fn word_id() -> Seq<char> {
    seq!['i', 'd']
}

pub open spec fn word_tag() -> Seq<char> {
    seq!['t', 'a', 'g']
}

pub open spec fn word_quit() -> Seq<char> {
    seq!['q', 'u', 'i', 't']
}

/// The category that a text names: surrounding whitespace and the case
/// of letters do not count.
pub open spec fn category_of(s: Seq<char>) -> Category {
    let w = trimmed(s);
    if spells(w, word_classes()) {
        Category::Classes
    } else if spells(w, word_id()) {
        Category::Id
    } else if spells(w, word_tag()) {
        Category::Tag
    } else if spells(w, word_quit()) {
        Category::Quit
    } else {
        Category::Unknown
    }
}

/// The outcome of a resolution.
#[derive(Debug, PartialEq, Eq)]
pub enum Resolved {
    /// The name of the tag, class or id that was chosen.
    Selector(String),
    /// The user asked to leave.
    Quit,
    /// The category is unknown, or the choice picks nothing.
    Invalid,
}

/// The mathematical value of a [`Resolved`].
pub enum Resolution {
    Selector(Seq<char>),
    Quit,
    Invalid,
}

impl View for Resolved {
    type V = Resolution;

    open spec fn view(&self) -> Resolution {
        match self {
            Resolved::Selector(s) => Resolution::Selector(s@),
            Resolved::Quit => Resolution::Quit,
            Resolved::Invalid => Resolution::Invalid,
        }
    }
}

/// The characters of a string, where there is one.
pub open spec fn option_text(o: Option<String>) -> Option<Seq<char>> {
    match o {
        Some(s) => Some(s@),
        None => None,
    }
}

/// What a category and a choice resolve to, over the tag names, classes
/// and ids on offer. `numeric` says whether the trimmed choice is numeric.
pub open spec fn resolution(
    category: Seq<char>,
    tags: Seq<Seq<char>>,
    classes: Seq<Seq<char>>,
    ids: Seq<Seq<char>>,
    input: Seq<char>,
    numeric: bool,
) -> Resolution {
    let choice = trimmed(input);
    let list = match category_of(category) {
        Category::Classes => Some(classes),
        Category::Id => Some(ids),
        Category::Tag => Some(tags),
        _ => None,
    };
    match list {
        Some(l) => match picked(l, choice, numeric) {
            Some(name) => Resolution::Selector(name),
            None => Resolution::Invalid,
        },
        None => if category_of(category) == Category::Quit {
            Resolution::Quit
        } else {
            Resolution::Invalid
        },
    }
}

/// Whether every character of `s` is numeric.
pub fn all_numeric(s: &Vec<char>) -> (r: bool)
    ensures
        r == numeric_text(s@),
{
    let mut i: usize = 0;
    while i < s.len()
        invariant
            i <= s.len(),
            forall|k: int| 0 <= k < i ==> numeric_char(#[trigger] s@[k]),
        decreases s.len() - i,
    {
        if !is_numeric(s[i]) {
            return false;
        }
        i += 1;
    }
    true
}

/// Reads `s` as an index into a list of `limit` items: `Some` exactly
/// where `s` is a non-empty run of ASCII digits that writes a number
/// below `limit`.
pub fn parse_index(s: &Vec<char>, limit: usize) -> (r: Option<usize>)
    ensures
        match r {
            Some(v) => parsed_index(s@, limit as int) == Some(v as int),
            None => parsed_index(s@, limit as int) is None,
        },
{
    if s.len() == 0 {
        return None;
    }
    let mut v: usize = 0;
    let mut over: bool = limit == 0;
    let mut i: usize = 0;
    proof {
        assert(s@.subrange(0, 0) =~= Seq::<char>::empty());
    }
    while i < s.len()
        invariant
            i <= s.len(),
            forall|k: int| 0 <= k < i ==> is_digit(#[trigger] s@[k]),
            over <==> decimal(s@.subrange(0, i as int)) >= limit,
            !over ==> v == decimal(s@.subrange(0, i as int)),
        decreases s.len() - i,
    {
        let a: char = s[i];
        let c: u32 = a as u32;
        if c < 48 || c > 57 {
            assert(!is_digit(s@[i as int]));
            return None;
        }
        proof {
            assert(s@.subrange(0, i + 1).drop_last() =~= s@.subrange(0, i as int));
            assert(s@.subrange(0, i + 1).last() == s@[i as int]);
        }
        if !over {
            let w: u128 = (v as u128) * 10 + ((c - 48) as u128);
            if w >= limit as u128 {
                over = true;
            } else {
                v = w as usize;
            }
        }
        i += 1;
    }
    proof {
        assert(s@.subrange(0, i as int) =~= s@);
    }
    if over {
        None
    } else {
        Some(v)
    }
}

/// Picks an item of `list`: the one at the index that `choice` writes
/// where `numeric` holds, else the one that equals `choice`.
pub fn pick_entry(list: &Vec<String>, choice: &String, numeric: bool) -> (r: Option<String>)
    ensures
        option_text(r) == picked(texts(list@), choice@, numeric),
{
    if numeric {
        let chars = chars_of(choice.as_str());
        match parse_index(&chars, list.len()) {
            Some(i) => Some(list[i].clone()),
            None => None,
        }
    } else if contains_text(list, choice) {
        Some(choice.clone())
    } else {
        None
    }
}

/// Whether `s` spells the lower-case word `word`, whatever the case of
/// its ASCII letters.
pub fn spells_word(s: &Vec<char>, word: &Vec<char>) -> (r: bool)
    ensures
        r == spells(s@, word@),
{
    if s.len() != word.len() {
        return false;
    }
    let mut i: usize = 0;
    while i < s.len()
        invariant
            i <= s.len(),
            s.len() == word.len(),
            forall|k: int| 0 <= k < i ==> same_letter(#[trigger] s@[k], word@[k]),
        decreases s.len() - i,
    {
        let a: char = s[i];
        let b: char = word[i];
        let c: u32 = a as u32;
        let k: u32 = b as u32;
        if !(a == b || (65 <= c && c <= 90 && c + 32 == k)) {
            assert(!same_letter(s@[i as int], word@[i as int]));
            return false;
        }
        i += 1;
    }
    true
}

/// The category that `text` names.
pub fn read_category(text: &str) -> (r: Category)
    ensures
        r == category_of(text@),
{
    let chars = chars_of(text);
    let w = trim(&chars);
    let classes: Vec<char> = vec!['c', 'l', 'a', 's', 's', 'e', 's'];
    let id: Vec<char> = vec!['i', 'd'];
    let tag: Vec<char> = vec!['t', 'a', 'g'];
    let quit: Vec<char> = vec!['q', 'u', 'i', 't'];
    proof {
        assert(classes@ =~= word_classes());
        assert(id@ =~= word_id());
        assert(tag@ =~= word_tag());
        assert(quit@ =~= word_quit());
    }
    if spells_word(&w, &classes) {
        Category::Classes
    } else if spells_word(&w, &id) {
        Category::Id
    } else if spells_word(&w, &tag) {
        Category::Tag
    } else if spells_word(&w, &quit) {
        Category::Quit
    } else {
        Category::Unknown
    }
}

/// Resolves a category and a choice, given whether the trimmed choice is
/// numeric.
pub fn resolve_with(
    category: &str,
    index: &TagClassIndex,
    classes: &Vec<String>,
    ids: &Vec<String>,
    input: &str,
    numeric: bool,
) -> (r: Resolved)
    ensures
        r@ == resolution(
            category@,
            tag_names(index@),
            texts(classes@),
            texts(ids@),
            input@,
            numeric,
        ),
{
    let chars = chars_of(input);
    let choice = string_of(&trim(&chars));
    let found = match read_category(category) {
        Category::Classes => pick_entry(classes, &choice, numeric),
        Category::Id => pick_entry(ids, &choice, numeric),
        Category::Tag => {
            let tags = index.tags();
            pick_entry(&tags, &choice, numeric)
        },
        Category::Quit => {
            return Resolved::Quit;
        },
        Category::Unknown => {
            return Resolved::Invalid;
        },
    };
    match found {
        Some(name) => Resolved::Selector(name),
        None => Resolved::Invalid,
    }
}

/// Resolves a category and a choice into the name of a tag, a class or
/// an id. The category is read without regard to case or surrounding
/// whitespace. A choice whose characters are all numeric is an index
/// into the category's list; any other choice must equal an item of it.
/// `quit` gives `Quit`; an unknown category, or a choice that picks
/// nothing, gives `Invalid`.
pub fn resolve(
    category: &str,
    index: &TagClassIndex,
    classes: &Vec<String>,
    ids: &Vec<String>,
    input: &str,
) -> (r: Resolved)
    ensures
        r@ == resolution(
            category@,
            tag_names(index@),
            texts(classes@),
            texts(ids@),
            input@,
            numeric_text(trimmed(input@)),
        ),
{
    let chars = chars_of(input);
    let numeric = all_numeric(&trim(&chars));
    resolve_with(category, index, classes, ids, input, numeric)
}

/// The category `quit` resolves to `Quit`, whatever else is given.
pub proof fn lemma_quit_resolves_to_quit(
    tags: Seq<Seq<char>>,
    classes: Seq<Seq<char>>,
    ids: Seq<Seq<char>>,
    input: Seq<char>,
    numeric: bool,
)
    ensures
        resolution(word_quit(), tags, classes, ids, input, numeric) == Resolution::Quit,
{
    let q = word_quit();
    assert(q[0] == 'q' && q.last() == 't');
    assert(trimmed(q) == q);
    assert(category_of(q) == Category::Quit);
}

/// The choice `2` in the category `classes` picks the class at index 2
/// where there are more than two classes, and nothing otherwise.
pub proof fn lemma_index_two(
    tags: Seq<Seq<char>>,
    classes: Seq<Seq<char>>,
    ids: Seq<Seq<char>>,
)
    ensures
        resolution(word_classes(), tags, classes, ids, seq!['2'], true) == if classes.len() > 2 {
            Resolution::Selector(classes[2])
        } else {
            Resolution::Invalid
        },
{
    let c = word_classes();
    assert(c[0] == 'c' && c.last() == 's');
    assert(trimmed(c) == c);
    assert(category_of(c) == Category::Classes);
    let two = seq!['2'];
    assert(two[0] == '2' && two.last() == '2');
    assert(trimmed(two) == two);
    assert(two.drop_last() =~= Seq::<char>::empty());
    assert(decimal(two.drop_last()) == 0);
    assert(decimal(two) == 2);
    assert(is_decimal(two));
}

/// The qualifier that narrows a tag to its elements with a `class`
/// attribute.
pub open spec fn class_qualifier() -> Seq<char> {
    seq!['[', 'c', 'l', 'a', 's', 's', ']']
}

/// The CSS selector for a name of the given category: a class name after
/// a dot, an id after a hash sign, a tag name before the qualifier that
/// asks for a `class` attribute. The other categories have none.
pub open spec fn selector_text(category: Category, name: Seq<char>) -> Option<Seq<char>> {
    match category {
        Category::Classes => Some(seq!['.'] + name),
        Category::Id => Some(seq!['#'] + name),
        Category::Tag => Some(name + class_qualifier()),
        _ => None,
    }
}

/// The CSS selector for `name` in the given category, if the category
/// has selectors.
pub fn css_selector(category: Category, name: &str) -> (r: Option<String>)
    ensures
        option_text(r) == selector_text(category, name@),
{
    let chars = chars_of(name);
    let mut out: Vec<char> = Vec::new();
    match category {
        Category::Classes => {
            out.push('.');
            append_chars(&mut out, &chars);
            proof {
                assert(out@ =~= seq!['.'] + name@);
            }
        },
        Category::Id => {
            out.push('#');
            append_chars(&mut out, &chars);
            proof {
                assert(out@ =~= seq!['#'] + name@);
            }
        },
        Category::Tag => {
            let q: Vec<char> = vec!['[', 'c', 'l', 'a', 's', 's', ']'];
            append_chars(&mut out, &chars);
            append_chars(&mut out, &q);
            proof {
                assert(q@ =~= class_qualifier());
                assert(out@ =~= name@ + class_qualifier());
            }
        },
        _ => {
            return None;
        },
    }
    Some(string_of(&out))
}

/// The selector that a free choice stands for: where the trimmed choice
/// is a tag name of the index, that tag narrowed to its elements with a
/// `class` attribute; else the choice read as a class name.
pub open spec fn free_selector(idx: Seq<crate::index::EntryView>, input: Seq<char>) -> Seq<char> {
    let choice = trimmed(input);
    if has_tag(idx, choice) {
        choice + class_qualifier()
    } else {
        seq!['.'] + choice
    }
}

/// Reads a free choice as a tag name of the index or, failing that, as a
/// class name, and gives the selector for it.
pub fn id_or_class(index: &TagClassIndex, input: &str) -> (r: String)
    ensures
        r@ == free_selector(index@, input@),
{
    let chars = chars_of(input);
    let choice = string_of(&trim(&chars));
    let category = if index.contains_tag(&choice) {
        Category::Tag
    } else {
        Category::Classes
    };
    match css_selector(category, choice.as_str()) {
        Some(s) => s,
        None => choice,
    }
}

/// What the program does after an answer.
#[derive(Debug, PartialEq, Eq)]
pub enum Action {
    /// Show the items of this category and ask for a choice among them.
    ShowMenu(Category),
    /// Extract the elements that this CSS selector matches.
    Extract(String),
    /// Say that the answer names nothing, and ask again.
    AskAgain,
    /// End without extracting anything.
    Stop,
}

/// The mathematical value of an [`Action`].
pub enum ActionView {
    ShowMenu(Category),
    Extract(Seq<char>),
    AskAgain,
    Stop,
}

impl View for Action {
    type V = ActionView;

    open spec fn view(&self) -> ActionView {
        match self {
            Action::ShowMenu(c) => ActionView::ShowMenu(*c),
            Action::Extract(s) => ActionView::Extract(s@),
            Action::AskAgain => ActionView::AskAgain,
            Action::Stop => ActionView::Stop,
        }
    }
}

/// What follows the answer to the question for a category.
pub open spec fn next_after_category(text: Seq<char>) -> ActionView {
    match category_of(text) {
        Category::Quit => ActionView::Stop,
        Category::Unknown => ActionView::AskAgain,
        c => ActionView::ShowMenu(c),
    }
}

/// What follows the answer to the question for a choice: extraction with
/// the selector of the resolved name, and no extraction where nothing was
/// resolved.
pub open spec fn next_after_choice(
    category: Seq<char>,
    tags: Seq<Seq<char>>,
    classes: Seq<Seq<char>>,
    ids: Seq<Seq<char>>,
    input: Seq<char>,
    numeric: bool,
) -> ActionView {
    match resolution(category, tags, classes, ids, input, numeric) {
        Resolution::Selector(name) => match selector_text(category_of(category), name) {
            Some(s) => ActionView::Extract(s),
            None => ActionView::AskAgain,
        },
        Resolution::Quit => ActionView::Stop,
        Resolution::Invalid => ActionView::AskAgain,
    }
}

/// Decides what follows the answer to the question for a category: the
/// menu of a known category, the end on `quit`, the question again on
/// anything else.
pub fn after_category(text: &str) -> (r: Action)
    ensures
        r@ == next_after_category(text@),
{
    match read_category(text) {
        Category::Quit => Action::Stop,
        Category::Unknown => Action::AskAgain,
        c => Action::ShowMenu(c),
    }
}

/// Decides what follows the answer to the question for a choice within a
/// category. Only a resolved name leads to an extraction.
pub fn after_choice(
    category: &str,
    index: &TagClassIndex,
    classes: &Vec<String>,
    ids: &Vec<String>,
    input: &str,
) -> (r: Action)
    ensures
        r@ == next_after_choice(
            category@,
            tag_names(index@),
            texts(classes@),
            texts(ids@),
            input@,
            numeric_text(trimmed(input@)),
        ),
        r@ is Extract ==> resolution(
            category@,
            tag_names(index@),
            texts(classes@),
            texts(ids@),
            input@,
            numeric_text(trimmed(input@)),
        ) is Selector,
{
    match resolve(category, index, classes, ids, input) {
        Resolved::Selector(name) => match css_selector(read_category(category), name.as_str()) {
            Some(s) => Action::Extract(s),
            None => Action::AskAgain,
        },
        Resolved::Quit => Action::Stop,
        Resolved::Invalid => Action::AskAgain,
    }
}

} // verus!
