//! Templates whose braces pair up without nesting, and what list
//! substitution guarantees of them: no known span is left.

use vstd::prelude::*;
use crate::lists::{lemma_key_index, key_index};
use crate::template::{
    known_span, pick_at, span_item, span_name, spans, spans_from, substitute_spans, substituted,
};
use crate::text::{
    find_from, lemma_absent_char, lemma_find_from, lemma_replace_absent, occurs, occurs_at,
    replace_all,
};

verus! {

/// Whether `x` has the shape of a span: an opening brace, a closing brace
/// at the end, and no brace between them.
pub open spec fn span_shaped(x: Seq<char>) -> bool {
    &&& x.len() >= 2
    &&& x[0] == '{'
    &&& x.last() == '}'
    &&& forall|i: int| 0 < i < x.len() - 1 ==> x[i] != '{' && x[i] != '}'
}

/// Whether the braces of `w` pair up without nesting: every opening brace
/// is followed by a closing brace, and no other opening brace stands
/// between the two.
pub open spec fn flat(w: Seq<char>) -> bool
    decreases w.len(),
{
    let open = find_from(w, '{', 0);
    if open < 0 || open >= w.len() {
        true
    } else {
        let close = find_from(w, '}', open);
        if close <= open || close >= w.len() {
            false
        } else {
            find_from(w, '{', open + 1) > close && flat(w.skip(close + 1))
        }
    }
}

/// Whether no item of any list holds an opening brace.
pub open spec fn plain_items(lists: Seq<(Seq<char>, Seq<Seq<char>>)>) -> bool {
    forall|i: int, k: int|
        0 <= i < lists.len() && 0 <= k < lists[i].1.len() ==> !(#[trigger] lists[i].1[k]).contains(
            '{',
        )
}

/// `find_from` gives the one position that is at or after `from`, holds
/// `c` or is the end, and has no `c` before it.
proof fn lemma_find_is(s: Seq<char>, c: char, from: int, r: int)
    requires
        0 <= from <= r <= s.len(),
        r < s.len() ==> s[r] == c,
        forall|k: int| from <= k < r ==> s[k] != c,
    ensures
        find_from(s, c, from) == r,
{
    lemma_find_from(s, c, from);
}

/// Searching in a text from `k + j` on is searching in the text without
/// its first `k` characters from `j` on.
proof fn lemma_find_shift(s: Seq<char>, c: char, k: int, j: int)
    requires
        0 <= k,
        0 <= j,
        k + j <= s.len(),
    ensures
        find_from(s.skip(k), c, j) == find_from(s, c, k + j) - k,
{
    lemma_find_from(s, c, k + j);
    let r = find_from(s, c, k + j);
    assert forall|i: int| j <= i < r - k implies s.skip(k)[i] != c by {
        assert(s.skip(k)[i] == s[k + i]);
    }
    if r < s.len() {
        assert(s.skip(k)[r - k] == s[r]);
    }
    lemma_find_is(s.skip(k), c, j, r - k);
}

/// The spans from a position on are the spans of the text that begins
/// there.
proof fn lemma_spans_shift(w: Seq<char>, k: int)
    requires
        0 <= k <= w.len(),
    ensures
        spans_from(w, k) == spans_from(w.skip(k), 0),
    decreases w.len() - k,
{
    let v = w.skip(k);
    if k < w.len() {
        let open = find_from(w, '{', k);
        lemma_find_from(w, '{', k);
        lemma_find_shift(w, '{', k, 0);
        if open < w.len() {
            let close = find_from(w, '}', open);
            lemma_find_from(w, '}', open);
            lemma_find_shift(w, '}', k, open - k);
            if open < close < w.len() {
                lemma_spans_shift(w, close + 1);
                lemma_spans_shift(v, close - k + 1);
                assert(v.skip(close - k + 1) =~= w.skip(close + 1));
                assert(v.subrange(open - k, close - k + 1) =~= w.subrange(open, close + 1));
            }
        }
    }
}

/// The first span of a text and the spans behind it.
proof fn lemma_spans_unfold(w: Seq<char>)
    ensures
        ({
            let open = find_from(w, '{', 0);
            let close = find_from(w, '}', open);
            if 0 <= open < w.len() && open < close < w.len() {
                spans(w) == seq![w.subrange(open, close + 1)] + spans(w.skip(close + 1))
            } else {
                spans(w) == Seq::<Seq<char>>::empty()
            }
        }),
{
    let open = find_from(w, '{', 0);
    lemma_find_from(w, '{', 0);
    if w.len() > 0 && open < w.len() {
        let close = find_from(w, '}', open);
        lemma_find_from(w, '}', open);
        if open < close < w.len() {
            lemma_spans_shift(w, close + 1);
        }
    }
}

/// The first span of a flat text has the shape of a span.
proof fn lemma_flat_first(w: Seq<char>)
    requires
        flat(w),
        0 <= find_from(w, '{', 0) < w.len(),
    ensures
        ({
            let open = find_from(w, '{', 0);
            let close = find_from(w, '}', open);
            &&& open < close < w.len()
            &&& span_shaped(w.subrange(open, close + 1))
            &&& flat(w.skip(close + 1))
            &&& forall|i: int| 0 <= i < open ==> w[i] != '{'
            &&& forall|i: int| open < i <= close ==> w[i] != '{'
        }),
{
    let open = find_from(w, '{', 0);
    let close = find_from(w, '}', open);
    lemma_find_from(w, '{', 0);
    lemma_find_from(w, '}', open);
    lemma_find_from(w, '{', open + 1);
    let x = w.subrange(open, close + 1);
    assert forall|i: int| 0 < i < x.len() - 1 implies x[i] != '{' && x[i] != '}' by {
        assert(x[i] == w[open + i]);
    }
}

/// Text without an opening brace before `rest` is passed over when a
/// pattern that begins with one is replaced.
proof fn lemma_replace_after(pre: Seq<char>, rest: Seq<char>, pat: Seq<char>, to: Seq<char>)
    requires
        !pre.contains('{'),
        pat.len() > 0,
        pat[0] == '{',
    ensures
        replace_all(pre + rest, pat, to) == pre + replace_all(rest, pat, to),
    decreases pre.len(),
{
    let s = pre + rest;
    if pre.len() == 0 {
        assert(s =~= rest);
        assert(pre + replace_all(rest, pat, to) =~= replace_all(rest, pat, to));
    } else {
        assert(pre.contains(pre[0]));
        assert(s[0] == pre[0]);
        if s.len() < pat.len() {
            assert(replace_all(rest, pat, to) == rest);
        } else {
            assert(s.subrange(0, pat.len() as int)[0] == s[0]);
            assert(s.skip(1) =~= pre.skip(1) + rest);
            assert(!pre.skip(1).contains('{')) by {
                if pre.skip(1).contains('{') {
                    let i = choose|i: int| 0 <= i < pre.skip(1).len() && pre.skip(1)[i] == '{';
                    assert(pre[i + 1] == '{');
                }
            }
            lemma_replace_after(pre.skip(1), rest, pat, to);
            assert(seq![s[0]] + (pre.skip(1) + replace_all(rest, pat, to)) =~= pre + replace_all(
                rest,
                pat,
                to,
            ));
        }
    }
}

/// A span before `rest` is replaced if it is the pattern, and kept if it
/// is not.
proof fn lemma_replace_span(x: Seq<char>, rest: Seq<char>, pat: Seq<char>, to: Seq<char>)
    requires
        span_shaped(x),
        span_shaped(pat),
    ensures
        replace_all(x + rest, pat, to) == (if x == pat {
            to
        } else {
            x
        }) + replace_all(rest, pat, to),
{
    let s = x + rest;
    let n = pat.len() as int;
    let m = x.len() as int;
    if x == pat {
        assert(s.subrange(0, n) =~= pat);
        assert(s.skip(n) =~= rest);
    } else {
        if s.len() >= n && s.subrange(0, n) == pat {
            if n < m {
                assert(s.subrange(0, n)[n - 1] == x[n - 1]);
                assert(pat[n - 1] == '}');
            } else if n > m {
                assert(s.subrange(0, n)[m - 1] == x[m - 1]);
                assert(x[m - 1] == '}');
                assert(pat[m - 1] == '}');
            } else {
                assert(s.subrange(0, n) =~= x);
            }
        }
        let tail = x.skip(1);
        assert(!tail.contains('{')) by {
            if tail.contains('{') {
                let i = choose|i: int| 0 <= i < tail.len() && tail[i] == '{';
                assert(x[i + 1] == '{');
            }
        }
        if s.len() < n {
            assert(replace_all(rest, pat, to) == rest);
        } else {
            assert(s.skip(1) =~= tail + rest);
            lemma_replace_after(tail, rest, pat, to);
            assert(seq![s[0]] + (tail + replace_all(rest, pat, to)) =~= x + replace_all(
                rest,
                pat,
                to,
            ));
        }
    }
}

/// Text without an opening brace before `rest` changes neither whether
/// the text is flat nor its spans.
proof fn lemma_after_plain(pre: Seq<char>, rest: Seq<char>)
    requires
        !pre.contains('{'),
    ensures
        flat(pre + rest) == flat(rest),
        spans(pre + rest) == spans(rest),
{
    let s = pre + rest;
    let p = pre.len() as int;
    assert(s.skip(p) =~= rest);
    assert forall|i: int| 0 <= i < p implies s[i] != '{' by {
        assert(pre.contains(pre[i]));
    }
    lemma_find_from(rest, '{', 0);
    let open = find_from(rest, '{', 0);
    if open < rest.len() {
        assert(s[p + open] == rest[open]);
    }
    assert forall|i: int| 0 <= i < p + open implies s[i] != '{' by {
        if i >= p {
            assert(s[i] == rest[i - p]);
        }
    }
    lemma_find_is(s, '{', 0, p + open);
    lemma_spans_unfold(s);
    lemma_spans_unfold(rest);
    if open < rest.len() {
        lemma_find_shift(s, '}', p, open);
        lemma_find_shift(s, '{', p, open + 1);
        let close = find_from(rest, '}', open);
        lemma_find_from(rest, '}', open);
        if open < close < rest.len() {
            assert(s.skip(p + close + 1) =~= rest.skip(close + 1));
            assert(s.subrange(p + open, p + close + 1) =~= rest.subrange(open, close + 1));
        }
    }
}

/// A span before `rest` is the first span of the whole, and the whole is
/// flat exactly if `rest` is.
proof fn lemma_after_span(x: Seq<char>, rest: Seq<char>)
    requires
        span_shaped(x),
    ensures
        flat(x + rest) == flat(rest),
        spans(x + rest) == seq![x] + spans(rest),
{
    let s = x + rest;
    let m = x.len() as int;
    lemma_find_is(s, '{', 0, 0);
    assert forall|k: int| 0 <= k < m - 1 implies s[k] != '}' by {
        assert(s[k] == x[k]);
    }
    assert(s[m - 1] == x[m - 1]);
    lemma_find_is(s, '}', 0, m - 1);
    assert(s.skip(m) =~= rest);
    assert(s.subrange(0, m) =~= x);
    lemma_spans_unfold(s);
    lemma_find_from(s, '{', 1);
    let next = find_from(s, '{', 1);
    if next <= m - 1 {
        assert(s[next] == x[next]);
    }
}

/// Replacing a span in a flat text by text without an opening brace leaves
/// the text flat, and leaves it no span but those it had, the replaced one
/// not among them.
pub proof fn lemma_replace_flat(w: Seq<char>, pat: Seq<char>, to: Seq<char>)
    requires
        flat(w),
        span_shaped(pat),
        !to.contains('{'),
    ensures
        flat(replace_all(w, pat, to)),
        forall|x: Seq<char>| #[trigger]
            spans(replace_all(w, pat, to)).contains(x) ==> spans(w).contains(x) && x != pat,
    decreases w.len(),
{
    let open = find_from(w, '{', 0);
    lemma_find_from(w, '{', 0);
    if open >= w.len() {
        assert(!w.contains('{')) by {
            if w.contains('{') {
                let i = choose|i: int| 0 <= i < w.len() && w[i] == '{';
                assert(w[i] != '{');
            }
        }
        assert(pat.contains('{')) by {
            assert(pat[0] == '{');
        }
        lemma_absent_char(w, pat, '{');
        lemma_replace_absent(w, pat, to);
        lemma_spans_unfold(w);
    } else {
        lemma_flat_first(w);
        let close = find_from(w, '}', open);
        let pre = w.subrange(0, open);
        let x = w.subrange(open, close + 1);
        let post = w.skip(close + 1);
        assert(w =~= pre + (x + post));
        assert(!pre.contains('{')) by {
            if pre.contains('{') {
                let i = choose|i: int| 0 <= i < pre.len() && pre[i] == '{';
                assert(w[i] == '{');
            }
        }
        lemma_replace_flat(post, pat, to);
        let post2 = replace_all(post, pat, to);
        lemma_replace_after(pre, x + post, pat, to);
        lemma_replace_span(x, post, pat, to);
        lemma_after_plain(pre, x + post);
        lemma_after_span(x, post);
        let result = replace_all(w, pat, to);
        if x == pat {
            assert(result =~= (pre + to) + post2);
            assert(!(pre + to).contains('{')) by {
                if (pre + to).contains('{') {
                    let i = choose|i: int| 0 <= i < (pre + to).len() && (pre + to)[i] == '{';
                    if i < pre.len() {
                        assert(pre[i] == '{');
                    } else {
                        assert(to[i - pre.len()] == '{');
                    }
                }
            }
            lemma_after_plain(pre + to, post2);
            assert forall|y: Seq<char>| #[trigger] spans(result).contains(y) implies spans(
                w,
            ).contains(y) && y != pat by {
                assert(spans(post).contains(y));
                let i = choose|i: int| 0 <= i < spans(post).len() && spans(post)[i] == y;
                assert((seq![x] + spans(post))[i + 1] == y);
            }
        } else {
            assert(result == pre + (x + post2));
            lemma_after_plain(pre, x + post2);
            lemma_after_span(x, post2);
            assert forall|y: Seq<char>| #[trigger] spans(result).contains(y) implies spans(
                w,
            ).contains(y) && y != pat by {
                let j = choose|j: int| 0 <= j < spans(result).len() && spans(result)[j] == y;
                if j == 0 {
                    assert((seq![x] + spans(post))[0] == y);
                } else {
                    assert(spans(post2)[j - 1] == y);
                    assert(spans(post2).contains(y));
                    assert(spans(post).contains(y));
                    let i = choose|i: int| 0 <= i < spans(post).len() && spans(post)[i] == y;
                    assert((seq![x] + spans(post))[i + 1] == y);
                }
            }
        }
    }
}

/// In a flat text, a text of the shape of a span occurs only as one of
/// the spans.
pub proof fn lemma_occurs_flat(w: Seq<char>, pat: Seq<char>)
    requires
        flat(w),
        span_shaped(pat),
        occurs(w, pat),
    ensures
        spans(w).contains(pat),
    decreases w.len(),
{
    let at = choose|i: int| occurs_at(w, pat, i);
    let n = pat.len() as int;
    assert(w.subrange(at, at + n)[0] == w[at]);
    assert(w[at] == '{');
    let open = find_from(w, '{', 0);
    lemma_find_from(w, '{', 0);
    lemma_flat_first(w);
    let close = find_from(w, '}', open);
    lemma_find_from(w, '}', open);
    let x = w.subrange(open, close + 1);
    let post = w.skip(close + 1);
    lemma_spans_unfold(w);
    if at == open {
        assert forall|k: int| open <= k < open + n - 1 implies w[k] != '}' by {
            assert(w.subrange(at, at + n)[k - open] == w[k]);
            if k > open {
                assert(pat[k - open] != '}');
            }
        }
        assert(w.subrange(at, at + n)[n - 1] == w[open + n - 1]);
        lemma_find_is(w, '}', open, open + n - 1);
        assert(x =~= pat);
        assert((seq![x] + spans(post))[0] == pat);
    } else {
        assert(at > close);
        assert(post.subrange(at - close - 1, at - close - 1 + n) =~= w.subrange(at, at + n));
        assert(occurs_at(post, pat, at - close - 1));
        lemma_occurs_flat(post, pat);
        let i = choose|i: int| 0 <= i < spans(post).len() && spans(post)[i] == pat;
        assert((seq![x] + spans(post))[i + 1] == pat);
    }
}

/// Every span of a flat text has the shape of a span.
pub proof fn lemma_spans_shaped(w: Seq<char>)
    requires
        flat(w),
    ensures
        forall|i: int| 0 <= i < spans(w).len() ==> span_shaped(#[trigger] spans(w)[i]),
    decreases w.len(),
{
    let open = find_from(w, '{', 0);
    lemma_find_from(w, '{', 0);
    lemma_spans_unfold(w);
    if open < w.len() {
        lemma_flat_first(w);
        let close = find_from(w, '}', open);
        lemma_spans_shaped(w.skip(close + 1));
    }
}

/// What goes in the place of a known span holds no opening brace, where
/// no item of any list does.
proof fn lemma_item_plain(span: Seq<char>, lists: Seq<(Seq<char>, Seq<Seq<char>>)>, pick: int)
    requires
        plain_items(lists),
        known_span(span, lists),
        pick >= 0,
    ensures
        !span_item(span, lists, pick).contains('{'),
{
    let name = span_name(span);
    lemma_key_index(lists, name, 0);
    let idx = key_index(lists, name, 0);
    let items = lists[idx].1;
    let k = pick % (items.len() as int);
    assert(0 <= k < items.len()) by (nonlinear_arith)
        requires
            k == pick % (items.len() as int),
            items.len() > 0,
            pick >= 0,
    ;
    assert(!lists[idx].1[k].contains('{'));
}

/// After the spans `sp` of a flat text were dealt with, the text is flat
/// yet, and it has no span but those that it had, the known ones among
/// `sp` not among them.
proof fn lemma_substitute_flat(
    text: Seq<char>,
    sp: Seq<Seq<char>>,
    lists: Seq<(Seq<char>, Seq<Seq<char>>)>,
    picks: Seq<usize>,
)
    requires
        flat(text),
        plain_items(lists),
        forall|i: int| 0 <= i < sp.len() ==> span_shaped(#[trigger] sp[i]),
    ensures
        flat(substitute_spans(text, sp, lists, picks)),
        forall|x: Seq<char>| #[trigger]
            spans(substitute_spans(text, sp, lists, picks)).contains(x) ==> spans(text).contains(x)
                && !(known_span(x, lists) && sp.contains(x)),
    decreases sp.len(),
{
    if sp.len() > 0 {
        let rest = sp.drop_last();
        let last = sp.last();
        assert forall|i: int| 0 <= i < rest.len() implies span_shaped(#[trigger] rest[i]) by {
            assert(rest[i] == sp[i]);
        }
        lemma_substitute_flat(text, rest, lists, picks);
        let prev = substitute_spans(text, rest, lists, picks);
        let out = substitute_spans(text, sp, lists, picks);
        assert(span_shaped(sp[sp.len() - 1]));
        if known_span(last, lists) {
            let item = span_item(last, lists, pick_at(picks, sp.len() - 1));
            lemma_item_plain(last, lists, pick_at(picks, sp.len() - 1));
            lemma_replace_flat(prev, last, item);
        }
        assert forall|x: Seq<char>| #[trigger] spans(out).contains(x) implies spans(text).contains(
            x,
        ) && !(known_span(x, lists) && sp.contains(x)) by {
            assert(spans(prev).contains(x));
            if known_span(x, lists) && sp.contains(x) {
                let i = choose|i: int| 0 <= i < sp.len() && sp[i] == x;
                if i < rest.len() {
                    assert(rest[i] == x);
                    assert(rest.contains(x));
                } else {
                    assert(x == last);
                }
            }
        }
    }
}

/// List substitution leaves no known placeholder. In a template whose
/// braces pair up without nesting, and with lists none of whose items
/// holds an opening brace, the result holds no `{name}` of which `name`
/// is the name of a list that is not empty.
pub proof fn lemma_known_spans_vanish(
    template: Seq<char>,
    lists: Seq<(Seq<char>, Seq<Seq<char>>)>,
    picks: Seq<usize>,
    span: Seq<char>,
)
    requires
        flat(template),
        plain_items(lists),
        span_shaped(span),
        known_span(span, lists),
    ensures
        !occurs(substituted(template, lists, picks), span),
{
    lemma_spans_shaped(template);
    lemma_substitute_flat(template, spans(template), lists, picks);
    let out = substituted(template, lists, picks);
    if occurs(out, span) {
        lemma_occurs_flat(out, span);
        assert(spans(out).contains(span));
        assert(spans(template).contains(span));
    }
}

} // verus!
