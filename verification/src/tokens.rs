//! Cutting a message into tokens by the general category of its
//! characters.

use vstd::prelude::*;
use vstd::string::*;
use unicode_properties::{GeneralCategoryGroup, UnicodeGeneralCategory};
use crate::split::texts;
use crate::text::{from_chars, slice, to_chars};

verus! {

/// The groups of general categories of Unicode.
#[derive(Clone, Copy, Debug, PartialEq, Eq, Structural)]
pub enum CharGroup {
    Letter,
    Mark,
    Number,
    Punctuation,
    Symbol,
    Separator,
    Other,
}

/// The group of the general category of a character, as the tables of
/// `unicode_properties` give it.
pub uninterp spec fn group_of(c: char) -> CharGroup;

/// `UnicodeGeneralCategory::general_category_group` of
/// `unicode_properties`: the group of the character's general category, a
/// function of the character alone.
#[verifier::external_body]
pub(crate) fn general_category_group(c: char) -> (g: CharGroup)
    ensures
        g == group_of(c),
{
    match c.general_category_group() {
        GeneralCategoryGroup::Letter => CharGroup::Letter,
        GeneralCategoryGroup::Mark => CharGroup::Mark,
        GeneralCategoryGroup::Number => CharGroup::Number,
        GeneralCategoryGroup::Punctuation => CharGroup::Punctuation,
        GeneralCategoryGroup::Symbol => CharGroup::Symbol,
        GeneralCategoryGroup::Separator => CharGroup::Separator,
        GeneralCategoryGroup::Other => CharGroup::Other,
    }
}

/// Whether a character of this group belongs into a word: letters,
/// numbers and the apostrophe do.
pub open spec fn in_word(group: CharGroup, c: char) -> bool {
    group is Letter || group is Number || c == '\''
}

/// Whether a character of this group belongs into a word.
pub fn is_in_word(group: CharGroup, c: char) -> (b: bool)
    ensures
        b == in_word(group, c),
{
    match group {
        CharGroup::Letter => true,
        CharGroup::Number => true,
        _ => c == '\'',
    }
}

/// The first position at or after `from` that is not marked, or the
/// length if every position from there on is.
pub open spec fn run_end(marks: Seq<bool>, from: int) -> int
    decreases marks.len() - from,
{
    if from < 0 || from >= marks.len() {
        marks.len() as int
    } else if !marks[from] {
        from
    } else {
        run_end(marks, from + 1)
    }
}

/// The tokens of `s` that begin at or after `start`, `marks` saying of
/// each character whether it belongs into a word. A run of such characters
/// is one token, and every other character is a token by itself.
pub open spec fn tokens_from(s: Seq<char>, marks: Seq<bool>, start: int) -> Seq<Seq<char>>
    decreases s.len() - start,
{
    if start < 0 || start >= s.len() || s.len() != marks.len() {
        Seq::empty()
    } else if marks[start] {
        let end = run_end(marks, start);
        if end <= start || end > s.len() {
            Seq::empty()
        } else {
            seq![s.subrange(start, end)] + tokens_from(s, marks, end)
        }
    } else {
        seq![seq![s[start]]] + tokens_from(s, marks, start + 1)
    }
}

/// Of each character of `s`, whether it belongs into a word.
pub open spec fn word_marks(s: Seq<char>) -> Seq<bool> {
    Seq::new(s.len(), |i: int| in_word(group_of(s[i]), s[i]))
}

/// The tokens of a message.
pub open spec fn tokens(s: Seq<char>) -> Seq<Seq<char>> {
    tokens_from(s, word_marks(s), 0)
}

fn end_of_run(marks: &Vec<bool>, from: usize) -> (r: usize)
    requires
        from <= marks.len(),
    ensures
        r as int == run_end(marks@, from as int),
        from <= r <= marks.len(),
{
    let mut i: usize = from;
    while i < marks.len() && marks[i]
        invariant
            from <= i <= marks.len(),
            run_end(marks@, from as int) == run_end(marks@, i as int),
        decreases marks.len() - i,
    {
        i += 1;
    }
    i
}

/// Cuts a message into tokens, `marks` saying of each character whether
/// it belongs into a word. Where there is not one mark for each character,
/// there are no tokens.
pub fn tokenize_marked(data: &Vec<char>, marks: &Vec<bool>) -> (out: Vec<String>)
    ensures
        texts(out@) == tokens_from(data@, marks@, 0),
{
    let mut out: Vec<String> = Vec::new();
    if data.len() != marks.len() {
        assert(texts(out@) =~= Seq::<Seq<char>>::empty());
        return out;
    }
    let mut start: usize = 0;
    assert(texts(out@) + tokens_from(data@, marks@, 0) =~= tokens_from(data@, marks@, 0));
    while start < data.len()
        invariant
            start <= data.len(),
            data.len() == marks.len(),
            texts(out@) + tokens_from(data@, marks@, start as int) == tokens_from(
                data@,
                marks@,
                0,
            ),
        decreases data.len() - start,
    {
        let ghost before = texts(out@);
        let ghost rest = tokens_from(data@, marks@, start as int);
        if marks[start] {
            let end = end_of_run(marks, start + 1);
            let token = slice(data, start, end);
            out.push(from_chars(&token));
            assert(texts(out@) =~= before.push(token@));
            assert(before.push(token@) + tokens_from(data@, marks@, end as int) =~= before + rest);
            start = end;
        } else {
            let token = slice(data, start, start + 1);
            assert(token@ =~= seq![data@[start as int]]);
            out.push(from_chars(&token));
            assert(texts(out@) =~= before.push(token@));
            assert(before.push(token@) + tokens_from(data@, marks@, start + 1) =~= before + rest);
            start = start + 1;
        }
    }
    assert(texts(out@) + Seq::<Seq<char>>::empty() =~= texts(out@));
    out
}

/// Cuts a message into tokens: each run of letters, numbers and
/// apostrophes is one token, and every other character is a token by
/// itself.
pub fn tokenize_message(data: &str) -> (out: Vec<String>)
    ensures
        texts(out@) == tokens(data@),
{
    let chars = to_chars(data);
    let mut marks: Vec<bool> = Vec::new();
    let mut i: usize = 0;
    while i < chars.len()
        invariant
            i <= chars.len(),
            chars@ == data@,
            marks@ == word_marks(data@).take(i as int),
        decreases chars.len() - i,
    {
        let c = chars[i];
        marks.push(is_in_word(general_category_group(c), c));
        assert(marks@ =~= word_marks(data@).take(i + 1));
        i += 1;
    }
    assert(marks@ =~= word_marks(data@));
    tokenize_marked(&chars, &marks)
}

} // verus!
