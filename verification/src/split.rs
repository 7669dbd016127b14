//! Cutting a text into lines, into words and at a delimiter.

use vstd::prelude::*;
use itertools::Itertools;
use crate::text::{find_char, find_from, same_text, slice};

verus! {

/// The views of a vector of character vectors.
pub open spec fn rows(v: Seq<Vec<char>>) -> Seq<Seq<char>> {
    Seq::new(v.len(), |i: int| v[i]@)
}

/// The views of a vector of strings.
pub open spec fn texts(v: Seq<String>) -> Seq<Seq<char>> {
    Seq::new(v.len(), |i: int| v[i]@)
}

/// The characters with the Unicode property `White_Space`.
pub open spec fn is_whitespace(c: char) -> bool {
    let n = c as u32;
    ||| 0x09 <= n <= 0x0D
    ||| n == 0x20
    ||| n == 0x85
    ||| n == 0xA0
    ||| n == 0x1680
    ||| 0x2000 <= n <= 0x200A
    ||| n == 0x2028
    ||| n == 0x2029
    ||| n == 0x202F
    ||| n == 0x205F
    ||| n == 0x3000
}

/// Whether `c` is white space.
pub fn is_space(c: char) -> (b: bool)
    ensures
        b == is_whitespace(c),
{
    let n: u32 = c as u32;
    (0x09 <= n && n <= 0x0D) || n == 0x20 || n == 0x85 || n == 0xA0 || n == 0x1680 || (0x2000 <= n
        && n <= 0x200A) || n == 0x2028 || n == 0x2029 || n == 0x202F || n == 0x205F || n == 0x3000
}

/// `s` without one trailing carriage return.
pub open spec fn strip_cr(s: Seq<char>) -> Seq<char> {
    if s.len() > 0 && s.last() == '\r' {
        s.drop_last()
    } else {
        s
    }
}

/// The lines of `s` that begin at or after `start`.
pub open spec fn lines_from(s: Seq<char>, start: int) -> Seq<Seq<char>>
    decreases s.len() - start,
{
    if start < 0 || start >= s.len() {
        Seq::empty()
    } else {
        let n = find_from(s, '\n', start);
        if n < start {
            Seq::empty()
        } else if n >= s.len() {
            seq![s.subrange(start, s.len() as int)]
        } else {
            seq![strip_cr(s.subrange(start, n))] + lines_from(s, n + 1)
        }
    }
}

/// The lines of a text. A line ends at a line feed, or at a carriage return
/// directly before one; the terminator is not part of the line. The last
/// line needs no terminator, and an empty text has no lines.
pub open spec fn lines(s: Seq<char>) -> Seq<Seq<char>> {
    lines_from(s, 0)
}

/// Cuts a text into its lines.
pub fn split_lines(s: &Vec<char>) -> (out: Vec<Vec<char>>)
    ensures
        rows(out@) == lines(s@),
{
    let mut out: Vec<Vec<char>> = Vec::new();
    let mut start: usize = 0;
    assert(rows(out@) + lines_from(s@, 0) =~= lines(s@));
    while start < s.len()
        invariant
            start <= s.len(),
            rows(out@) + lines_from(s@, start as int) == lines(s@),
        decreases s.len() - start,
    {
        let n: usize = find_char(s, '\n', start);
        let ghost before = rows(out@);
        if n >= s.len() {
            let line = slice(s, start, s.len());
            out.push(line);
            assert(rows(out@) =~= before + seq![s@.subrange(start as int, s@.len() as int)]);
            start = s.len();
        } else {
            let mut end: usize = n;
            if end > start && s[end - 1] == '\r' {
                end = end - 1;
            }
            let line = slice(s, start, end);
            assert(line@ =~= strip_cr(s@.subrange(start as int, n as int)));
            out.push(line);
            assert(rows(out@) =~= before + seq![strip_cr(s@.subrange(start as int, n as int))]);
            assert((before + seq![strip_cr(s@.subrange(start as int, n as int))]) + lines_from(
                s@,
                n + 1,
            ) =~= before + (seq![strip_cr(s@.subrange(start as int, n as int))] + lines_from(
                s@,
                n + 1,
            )));
            start = n + 1;
        }
    }
    assert(rows(out@) + Seq::<Seq<char>>::empty() =~= rows(out@));
    out
}

/// The first position at or after `from` whose character is white space
/// (`space` false) or is not (`space` true); `s.len()` if there is none.
pub open spec fn scan(s: Seq<char>, from: int, space: bool) -> int
    decreases s.len() - from,
{
    if from < 0 || from >= s.len() {
        s.len() as int
    } else if is_whitespace(s[from]) != space {
        from
    } else {
        scan(s, from + 1, space)
    }
}

/// `scan` never moves backwards, and passes only characters of one kind.
pub proof fn lemma_scan(s: Seq<char>, from: int, space: bool)
    requires
        0 <= from <= s.len(),
    ensures
        from <= scan(s, from, space) <= s.len(),
        scan(s, from, space) < s.len() ==> is_whitespace(s[scan(s, from, space)]) != space,
        forall|k: int| from <= k < scan(s, from, space) ==> is_whitespace(s[k]) == space,
    decreases s.len() - from,
{
    if from < s.len() && is_whitespace(s[from]) == space {
        lemma_scan(s, from + 1, space);
    }
}

/// Moves past the characters of one kind.
pub fn scan_past(v: &Vec<char>, from: usize, space: bool) -> (r: usize)
    requires
        from <= v.len(),
    ensures
        r as int == scan(v@, from as int, space),
        from <= r <= v.len(),
{
    let mut i: usize = from;
    while i < v.len() && is_space(v[i]) == space
        invariant
            from <= i <= v.len(),
            scan(v@, from as int, space) == scan(v@, i as int, space),
        decreases v.len() - i,
    {
        i += 1;
    }
    i
}

/// The words of `s` that begin at or after `start`.
pub open spec fn words_from(s: Seq<char>, start: int) -> Seq<Seq<char>>
    decreases s.len() - start,
{
    let a = scan(s, start, true);
    if start < 0 || a < start || a >= s.len() {
        Seq::empty()
    } else {
        let b = scan(s, a, false);
        if b <= a || b > s.len() {
            Seq::empty()
        } else {
            seq![s.subrange(a, b)] + words_from(s, b)
        }
    }
}

/// The words of a text: its maximal runs of characters that are not white
/// space, in order. No word is empty.
pub open spec fn words(s: Seq<char>) -> Seq<Seq<char>> {
    words_from(s, 0)
}

/// Cuts a text into its words.
pub fn split_words(s: &Vec<char>) -> (out: Vec<Vec<char>>)
    ensures
        rows(out@) == words(s@),
{
    let mut out: Vec<Vec<char>> = Vec::new();
    let mut start: usize = 0;
    assert(rows(out@) + words_from(s@, 0) =~= words(s@));
    loop
        invariant
            start <= s.len(),
            rows(out@) + words_from(s@, start as int) == words(s@),
        decreases s.len() - start,
    {
        let a: usize = scan_past(s, start, true);
        if a >= s.len() {
            assert(rows(out@) + Seq::<Seq<char>>::empty() =~= rows(out@));
            return out;
        }
        let b: usize = scan_past(s, a, false);
        proof {
            lemma_scan(s@, start as int, true);
            lemma_scan(s@, a + 1, false);
            assert(b > a);
        }
        let ghost before = rows(out@);
        let word = slice(s, a, b);
        out.push(word);
        assert(rows(out@) =~= before + seq![s@.subrange(a as int, b as int)]);
        assert((before + seq![s@.subrange(a as int, b as int)]) + words_from(s@, b as int) =~= before
            + (seq![s@.subrange(a as int, b as int)] + words_from(s@, b as int)));
        start = b;
    }
}

/// Every word is non-empty and free of white space.
pub proof fn lemma_words_from(s: Seq<char>, start: int)
    requires
        0 <= start <= s.len(),
    ensures
        forall|i: int|
            0 <= i < words_from(s, start).len() ==> (#[trigger] words_from(s, start)[i]).len() > 0,
        forall|i: int, k: int|
            0 <= i < words_from(s, start).len() && 0 <= k < words_from(s, start)[i].len()
                ==> !is_whitespace(#[trigger] words_from(s, start)[i][k]),
    decreases s.len() - start,
{
    let a = scan(s, start, true);
    lemma_scan(s, start, true);
    if a < s.len() {
        let b = scan(s, a, false);
        lemma_scan(s, a, false);
        if b > a {
            lemma_words_from(s, b);
            let rest = words_from(s, b);
            let w = s.subrange(a, b);
            assert(words_from(s, start) =~= seq![w] + rest);
            assert forall|i: int| 0 <= i < words_from(s, start).len() implies (
            #[trigger] words_from(s, start)[i]).len() > 0 by {
                if i > 0 {
                    assert(words_from(s, start)[i] == rest[i - 1]);
                }
            }
            assert forall|i: int, k: int|
                0 <= i < words_from(s, start).len() && 0 <= k < words_from(
                    s,
                    start,
                )[i].len() implies !is_whitespace(#[trigger] words_from(s, start)[i][k]) by {
                if i > 0 {
                    assert(words_from(s, start)[i] == rest[i - 1]);
                } else {
                    assert(w[k] == s[a + k]);
                }
            }
        }
    }
}

/// The two sides of a text around its first `delim`, if it has one.
pub open spec fn split_first(s: Seq<char>, delim: char) -> Option<(Seq<char>, Seq<char>)> {
    let n = find_from(s, delim, 0);
    if 0 <= n < s.len() {
        Some((s.subrange(0, n), s.subrange(n + 1, s.len() as int)))
    } else {
        None
    }
}

/// Cuts a text at its first `delim`.
pub fn cut_first(s: &Vec<char>, delim: char) -> (r: Option<(Vec<char>, Vec<char>)>)
    ensures
        match r {
            Some((a, b)) => split_first(s@, delim) == Some((a@, b@)),
            None => split_first(s@, delim) is None,
        },
{
    let n: usize = find_char(s, delim, 0);
    if n < s.len() {
        Some((slice(s, 0, n), slice(s, n + 1, s.len())))
    } else {
        None
    }
}

/// The given parts in one text, with `sep` between each two.
pub open spec fn joined(parts: Seq<Seq<char>>, sep: Seq<char>) -> Seq<char>
    decreases parts.len(),
{
    if parts.len() == 0 {
        Seq::empty()
    } else if parts.len() == 1 {
        parts[0]
    } else {
        joined(parts.drop_last(), sep) + sep + parts.last()
    }
}

/// `itertools::Itertools::join` on the strings of a vector: the strings
/// in order, with `sep` between each two and none at either end; the empty
/// string for no strings.
#[verifier::external_body]
pub(crate) fn join_texts(parts: &Vec<String>, sep: &str) -> (r: String)
    ensures
        r@ == joined(texts(parts@), sep@),
{
    parts.iter().join(sep)
}

/// Whether `s` is one of the strings.
pub fn holds(names: &Vec<String>, s: &str) -> (b: bool)
    ensures
        b == texts(names@).contains(s@),
{
    let mut i: usize = 0;
    while i < names.len()
        invariant
            i <= names.len(),
            forall|k: int| 0 <= k < i ==> names@[k]@ != s@,
        decreases names.len() - i,
    {
        if same_text(names[i].as_str(), s) {
            assert(texts(names@)[i as int] == s@);
            return true;
        }
        i += 1;
    }
    assert(!texts(names@).contains(s@)) by {
        if texts(names@).contains(s@) {
            let k = choose|k: int| 0 <= k < texts(names@).len() && texts(names@)[k] == s@;
            assert(names@[k]@ == s@);
        }
    }
    false
}

} // verus!
