//! The template engine: list substitution, which puts a random item of a
//! list in place of each `{name}` that names one, and context
//! substitution, which fills in what is known of the message at hand.

use vstd::prelude::*;
use vstd::string::*;
use crate::channel::ChannelState;
use crate::lists::{lookup, Lists};
use crate::random::random_index;
use crate::rules::{global_subst, subst_global_chars, ListsMaps, MapValue, RuleValue};
use crate::text::{
    find_char, find_from, from_chars, lemma_find_from, lemma_replace_absent, occurs, replace,
    replace_all, slice, to_chars,
};

verus! {

/// The spans of `t` that begin at or after `start`. A span runs from an
/// opening brace to the first closing brace after it, both included; the
/// search for the next span begins behind the closing brace.
pub open spec fn spans_from(t: Seq<char>, start: int) -> Seq<Seq<char>>
    decreases t.len() - start,
{
    if start < 0 || start >= t.len() {
        Seq::empty()
    } else {
        let open = find_from(t, '{', start);
        if open < start || open >= t.len() {
            Seq::empty()
        } else {
            let close = find_from(t, '}', open);
            if close <= open || close >= t.len() {
                Seq::empty()
            } else {
                seq![t.subrange(open, close + 1)] + spans_from(t, close + 1)
            }
        }
    }
}

/// The spans of a template, from left to right.
pub open spec fn spans(t: Seq<char>) -> Seq<Seq<char>> {
    spans_from(t, 0)
}

/// Walks over the spans of a template.
pub struct SubLocations {
    text: Vec<char>,
    pos: usize,
}

impl SubLocations {
    #[verifier::type_invariant]
    spec fn in_bounds(self) -> bool {
        self.pos <= self.text@.len()
    }

    /// The spans that are still to come.
    pub closed spec fn remaining(self) -> Seq<Seq<char>> {
        spans_from(self.text@, self.pos as int)
    }

    /// Begins at the start of `data`.
    pub fn new(data: &Vec<char>) -> (r: SubLocations)
        ensures
            r.remaining() == spans(data@),
    {
        let text = slice(data, 0, data.len());
        assert(text@ =~= data@);
        SubLocations { text, pos: 0 }
    }

    /// The next span, if there is one.
    pub fn next(&mut self) -> (r: Option<Vec<char>>)
        ensures
            match r {
                Some(span) => old(self).remaining() == seq![span@] + final(self).remaining(),
                None => old(self).remaining().len() == 0 && final(self).remaining().len() == 0,
            },
    {
        proof {
            use_type_invariant(&*self);
        }
        let len = self.text.len();
        if self.pos >= len {
            return None;
        }
        let open = find_char(&self.text, '{', self.pos);
        if open >= len {
            return None;
        }
        let close = find_char(&self.text, '}', open);
        proof {
            lemma_find_from(self.text@, '{', self.pos as int);
            lemma_find_from(self.text@, '}', open as int);
        }
        if close >= len {
            return None;
        }
        let span = slice(&self.text, open, close + 1);
        self.pos = close + 1;
        Some(span)
    }
}

/// The pick made for the span of index `i`; 0 where none was recorded.
pub open spec fn pick_at(picks: Seq<usize>, i: int) -> int {
    if 0 <= i < picks.len() {
        picks[i] as int
    } else {
        0
    }
}

/// The name inside a span: the span without its two braces.
pub open spec fn span_name(span: Seq<char>) -> Seq<char> {
    span.subrange(1, span.len() - 1)
}

/// Whether a span names a list from which an item can be taken: it holds
/// a character at least between its braces, and a list of that name exists
/// and is not empty.
pub open spec fn known_span(span: Seq<char>, lists: Seq<(Seq<char>, Seq<Seq<char>>)>) -> bool {
    span.len() >= 3 && match lookup(lists, span_name(span)) {
        Some(items) => items.len() > 0,
        None => false,
    }
}

/// The item that goes in the place of a known span, the pick being `pick`.
pub open spec fn span_item(
    span: Seq<char>,
    lists: Seq<(Seq<char>, Seq<Seq<char>>)>,
    pick: int,
) -> Seq<char>
    recommends
        known_span(span, lists),
{
    let items = lookup(lists, span_name(span))->Some_0;
    items[pick % (items.len() as int)]
}

/// `text` after the spans `sp` have been dealt with in order: for each
/// known span, every occurrence of it in the text as it then stands is
/// replaced by one item of its list; any other span is passed over.
pub open spec fn substitute_spans(
    text: Seq<char>,
    sp: Seq<Seq<char>>,
    lists: Seq<(Seq<char>, Seq<Seq<char>>)>,
    picks: Seq<usize>,
) -> Seq<char>
    decreases sp.len(),
{
    if sp.len() == 0 {
        text
    } else {
        let prev = substitute_spans(text, sp.drop_last(), lists, picks);
        if known_span(sp.last(), lists) {
            replace_all(prev, sp.last(), span_item(sp.last(), lists, pick_at(picks, sp.len() - 1)))
        } else {
            prev
        }
    }
}

/// The template after list substitution, `picks[i]` being the number drawn
/// for its span of index `i`.
pub open spec fn substituted(
    t: Seq<char>,
    lists: Seq<(Seq<char>, Seq<Seq<char>>)>,
    picks: Seq<usize>,
) -> Seq<char> {
    substitute_spans(t, spans(t), lists, picks)
}

/// Only the picks for the spans at hand matter.
pub proof fn lemma_picks_agree(
    text: Seq<char>,
    sp: Seq<Seq<char>>,
    lists: Seq<(Seq<char>, Seq<Seq<char>>)>,
    left: Seq<usize>,
    right: Seq<usize>,
)
    requires
        forall|i: int| 0 <= i < sp.len() ==> pick_at(left, i) == pick_at(right, i),
    ensures
        substitute_spans(text, sp, lists, left) == substitute_spans(text, sp, lists, right),
    decreases sp.len(),
{
    if sp.len() > 0 {
        lemma_picks_agree(text, sp.drop_last(), lists, left, right);
    }
}

/// Spans of which none is known leave the text as it is.
pub proof fn lemma_unknown_spans(
    text: Seq<char>,
    sp: Seq<Seq<char>>,
    lists: Seq<(Seq<char>, Seq<Seq<char>>)>,
    picks: Seq<usize>,
)
    requires
        forall|i: int| 0 <= i < sp.len() ==> !known_span(#[trigger] sp[i], lists),
    ensures
        substitute_spans(text, sp, lists, picks) == text,
    decreases sp.len(),
{
    if sp.len() > 0 {
        assert forall|i: int| 0 <= i < sp.drop_last().len() implies !known_span(
            #[trigger] sp.drop_last()[i],
            lists,
        ) by {
            assert(sp.drop_last()[i] == sp[i]);
        }
        lemma_unknown_spans(text, sp.drop_last(), lists, picks);
        assert(sp.last() == sp[sp.len() - 1]);
    }
}

fn scripted(script: Option<&Vec<usize>>, k: usize) -> (r: Option<usize>)
    ensures
        match script {
            Some(v) => r == Some(pick_at(v@, k as int) as usize),
            None => r is None,
        },
{
    match script {
        Some(v) => if k < v.len() {
            Some(v[k])
        } else {
            Some(0)
        },
        None => None,
    }
}

fn pick(script: Option<&Vec<usize>>, k: usize) -> (r: usize)
    ensures
        script matches Some(v) ==> r as int == pick_at(v@, k as int),
{
    match scripted(script, k) {
        Some(n) => n,
        None => random_index(),
    }
}

/// List substitution with the picks of `script`, or with random picks
/// where there is no script. The second part of the result holds the
/// picks that were used.
fn substitute_core(lists: &Lists, message: &Vec<char>, script: Option<&Vec<usize>>) -> (r: (
    Vec<char>,
    Ghost<Seq<usize>>,
))
    ensures
        r.0@ == substituted(message@, lists@, r.1@),
        script matches Some(v) ==> r.1@ == v@,
{
    let mut result = slice(message, 0, message.len());
    assert(result@ =~= message@);
    let mut locs = SubLocations::new(message);
    let ghost mut done: Seq<Seq<char>> = Seq::empty();
    let ghost mut picks: Seq<usize> = match script {
        Some(v) => v@,
        None => Seq::empty(),
    };
    let mut k: usize = 0;
    assert(done + locs.remaining() =~= spans(message@));
    loop
        invariant
            done + locs.remaining() == spans(message@),
            result@ == substitute_spans(message@, done, lists@, picks),
            script is Some ==> picks == script->Some_0@,
            script is Some ==> k <= script->Some_0@.len() && (k == done.len() || (k
                == script->Some_0@.len() && done.len() >= k)),
            script is None ==> picks.len() == done.len(),
        decreases locs.remaining().len(),
    {
        let ghost before = locs.remaining();
        let next = locs.next();
        match next {
            None => {
                assert(done + locs.remaining() =~= done);
                assert(done + before =~= done);
                return (result, Ghost(picks));
            },
            Some(span) => {
                let ghost old_picks = picks;
                let ghost old_done = done;
                proof {
                    done = done.push(span@);
                    assert(done.drop_last() =~= old_done);
                    assert(done + locs.remaining() =~= old_done + (seq![span@]
                        + locs.remaining()));
                }
                let mut raw: usize = 0;
                if span.len() >= 3 {
                    let name = slice(&span, 1, span.len() - 1);
                    let name_text = from_chars(&name);
                    match lists.get(name_text.as_str()) {
                        Some(items) => {
                            if items.len() > 0 {
                                raw = pick(script, k);
                                let item = to_chars(items[raw % items.len()].as_str());
                                result = replace(&result, &span, &item);
                            }
                        },
                        None => {},
                    }
                }
                proof {
                    if script is None {
                        picks = picks.push(raw);
                        lemma_picks_agree(message@, old_done, lists@, old_picks, picks);
                    }
                }
                match script {
                    Some(v) => {
                        if k < v.len() {
                            k += 1;
                        }
                    },
                    None => {},
                }
            },
        }
    }
}

/// List substitution with random picks: each known span of `message` is
/// replaced, wherever it occurs, by an item of its list that is picked at
/// random. The result is what some sequence of picks gives; a message
/// none of whose spans is known comes back as it is.
pub fn substitute_random(lm: &ListsMaps, message: &str) -> (r: String)
    ensures
        exists|picks: Seq<usize>| r@ == #[trigger] substituted(message@, lm@.lists, picks),
        (forall|i: int|
            0 <= i < spans(message@).len() ==> !known_span(
                #[trigger] spans(message@)[i],
                lm@.lists,
            )) ==> r@ == message@,
{
    let chars = to_chars(message);
    let (out, Ghost(picks)) = substitute_core(&lm.lists, &chars, None);
    assert(out@ == substituted(message@, lm@.lists, picks));
    proof {
        if forall|i: int|
            0 <= i < spans(message@).len() ==> !known_span(
                #[trigger] spans(message@)[i],
                lm@.lists,
            ) {
            lemma_unknown_spans(message@, spans(message@), lm@.lists, picks);
        }
    }
    from_chars(&out)
}

/// List substitution with the given picks: the span of index `i` takes the
/// item of index `picks[i]` modulo the length of its list, and 0 stands
/// for a pick that is not given.
pub fn substitute_picked(lm: &ListsMaps, message: &str, picks: &Vec<usize>) -> (r: String)
    ensures
        r@ == substituted(message@, lm@.lists, picks@),
{
    let chars = to_chars(message);
    let (out, _) = substitute_core(&lm.lists, &chars, Some(picks));
    from_chars(&out)
}

/// What is known of the message that a reply answers.
pub struct ReplyContext<'a> {
    pub user: &'a str,
    pub trigger: &'a str,
    pub trigger_message: &'a str,
}

/// A reply context, with its texts as character sequences.
pub struct ReplyView {
    pub user: Seq<char>,
    pub trigger: Seq<char>,
    pub trigger_message: Seq<char>,
}

impl<'a> View for ReplyContext<'a> {
    type V = ReplyView;

    open spec fn view(&self) -> ReplyView {
        ReplyView {
            user: self.user@,
            trigger: self.trigger@,
            trigger_message: self.trigger_message@,
        }
    }
}

/// `message` after context substitution: `{trigger}`, `{trigger_message}`,
/// `{user}` and `{channel}` are replaced in this order, each in the text
/// that the replacement before it left, and then `{me}`.
pub open spec fn context_subst(channel: Seq<char>, context: ReplyView, message: Seq<char>) -> Seq<
    char,
> {
    global_subst(
        replace_all(
            replace_all(
                replace_all(
                    replace_all(message, "{trigger}"@, context.trigger),
                    "{trigger_message}"@,
                    context.trigger_message,
                ),
                "{user}"@,
                context.user,
            ),
            "{channel}"@,
            channel,
        ),
    )
}

pub(crate) fn subst_context_chars(
    channel: &str,
    context: &ReplyContext<'_>,
    message: &Vec<char>,
) -> (r: Vec<char>)
    ensures
        r@ == context_subst(channel@, context@, message@),
{
    let a = replace(message, &to_chars("{trigger}"), &to_chars(context.trigger));
    let b = replace(&a, &to_chars("{trigger_message}"), &to_chars(context.trigger_message));
    let c = replace(&b, &to_chars("{user}"), &to_chars(context.user));
    let d = replace(&c, &to_chars("{channel}"), &to_chars(channel));
    subst_global_chars(&d)
}

/// Context substitution for a reply in the channel of `state`.
pub fn subst_context(state: &ChannelState, context: &ReplyContext<'_>, message: &str) -> (r:
    String)
    ensures
        r@ == context_subst(state@.channel_name, context@, message@),
{
    let chars = to_chars(message);
    let out = subst_context_chars(state.channel_name.as_str(), context, &chars);
    from_chars(&out)
}

/// A template after both substitutions, list substitution first.
pub open spec fn rendered(
    channel: Seq<char>,
    lists: Seq<(Seq<char>, Seq<Seq<char>>)>,
    context: ReplyView,
    template: Seq<char>,
    picks: Seq<usize>,
) -> Seq<char> {
    context_subst(channel, context, substituted(template, lists, picks))
}

/// The picks that are left after the first was used.
pub open spec fn later_picks(picks: Seq<usize>) -> Seq<usize> {
    if picks.len() > 0 {
        picks.skip(1)
    } else {
        picks
    }
}

/// An item of the list `name`, after list substitution: the item of index
/// `picks[0]` modulo the length of the list, substituted with the picks
/// that follow. Nothing if the list does not exist or is empty.
pub open spec fn picked(
    lists: Seq<(Seq<char>, Seq<Seq<char>>)>,
    name: Seq<char>,
    picks: Seq<usize>,
) -> Option<Seq<char>> {
    match lookup(lists, name) {
        Some(items) => if items.len() > 0 {
            Some(
                substituted(
                    items[pick_at(picks, 0) % (items.len() as int)],
                    lists,
                    later_picks(picks),
                ),
            )
        } else {
            None
        },
        None => None,
    }
}

/// The response that a rule value gives. A literal is rendered as it is.
/// A list reference takes an item of the list as `picked` says, and fills
/// in the context; a list that does not exist or is empty gives no
/// response.
pub open spec fn response(
    channel: Seq<char>,
    lists: Seq<(Seq<char>, Seq<Seq<char>>)>,
    context: ReplyView,
    value: RuleValue,
    picks: Seq<usize>,
) -> Option<Seq<char>> {
    match value {
        RuleValue::Literal(template) => Some(rendered(channel, lists, context, template, picks)),
        RuleValue::ListRef(name) => match picked(lists, name, picks) {
            Some(text) => Some(context_subst(channel, context, text)),
            None => None,
        },
    }
}

/// A template without a recognized placeholder is rendered as it is: none
/// of its spans is known, and none of the tokens of context substitution
/// occurs in it.
pub proof fn lemma_plain_template(
    channel: Seq<char>,
    lists: Seq<(Seq<char>, Seq<Seq<char>>)>,
    context: ReplyView,
    template: Seq<char>,
    picks: Seq<usize>,
)
    requires
        forall|i: int|
            0 <= i < spans(template).len() ==> !known_span(#[trigger] spans(template)[i], lists),
        !occurs(template, "{trigger}"@),
        !occurs(template, "{trigger_message}"@),
        !occurs(template, "{user}"@),
        !occurs(template, "{channel}"@),
        !occurs(template, "{me}"@),
    ensures
        substituted(template, lists, picks) == template,
        rendered(channel, lists, context, template, picks) == template,
{
    lemma_unknown_spans(template, spans(template), lists, picks);
    lemma_replace_absent(template, "{trigger}"@, context.trigger);
    lemma_replace_absent(template, "{trigger_message}"@, context.trigger_message);
    lemma_replace_absent(template, "{user}"@, context.user);
    lemma_replace_absent(template, "{channel}"@, channel);
    lemma_replace_absent(template, "{me}"@, crate::rules::bot_name());
}

/// What goes in the place of a known span is an item of the list that the
/// span names.
pub proof fn lemma_span_item(
    span: Seq<char>,
    lists: Seq<(Seq<char>, Seq<Seq<char>>)>,
    pick: int,
)
    requires
        known_span(span, lists),
        pick >= 0,
    ensures
        lookup(lists, span_name(span))->Some_0.contains(span_item(span, lists, pick)),
{
    let items = lookup(lists, span_name(span))->Some_0;
    let i = pick % (items.len() as int);
    assert(0 <= i < items.len()) by (nonlinear_arith)
        requires
            i == pick % (items.len() as int),
            items.len() > 0,
            pick >= 0,
    ;
    assert(items[i] == span_item(span, lists, pick));
}

/// Whether a rule value gives a response at all.
pub open spec fn responds(lists: Seq<(Seq<char>, Seq<Seq<char>>)>, value: RuleValue) -> bool {
    match value {
        RuleValue::Literal(_) => true,
        RuleValue::ListRef(name) => match lookup(lists, name) {
            Some(items) => items.len() > 0,
            None => false,
        },
    }
}

/// The view of an optional string.
pub open spec fn text_of(s: Option<String>) -> Option<Seq<char>> {
    match s {
        Some(t) => Some(t@),
        None => None,
    }
}

fn tail(v: &Vec<usize>) -> (r: Vec<usize>)
    ensures
        r@ == later_picks(v@),
{
    let mut r: Vec<usize> = Vec::new();
    let mut i: usize = 1;
    if v.len() == 0 {
        assert(r@ =~= v@);
        return r;
    }
    while i < v.len()
        invariant
            1 <= i <= v.len(),
            r@ == v@.subrange(1, i as int),
        decreases v.len() - i,
    {
        r.push(v[i]);
        i += 1;
    }
    assert(r@ =~= v@.skip(1));
    r
}

/// The picks that a script lays down; none where there is no script.
pub open spec fn scripted_picks(script: Option<&Vec<usize>>) -> Seq<usize> {
    match script {
        Some(v) => v@,
        None => Seq::empty(),
    }
}

/// Renders a template with the picks of `script`, or with random picks
/// where there is no script. The second part of the result holds the
/// picks that were used.
pub(crate) fn render_core(
    channel: &str,
    lists: &Lists,
    context: &ReplyContext<'_>,
    template: &Vec<char>,
    script: Option<&Vec<usize>>,
) -> (r: (String, Ghost<Seq<usize>>))
    ensures
        r.0@ == rendered(channel@, lists@, context@, template@, r.1@),
        script is Some ==> r.1@ == scripted_picks(script),
{
    let (sub, Ghost(picks)) = substitute_core(lists, template, script);
    let out = subst_context_chars(channel, context, &sub);
    (from_chars(&out), Ghost(picks))
}

/// Picks an item of a list and substitutes the lists in it, with the
/// picks of `script`, or with random picks where there is no script. The
/// second part of the result holds the picks that were used.
pub(crate) fn pick_core(lists: &Lists, name: &str, script: Option<&Vec<usize>>) -> (r: (
    Option<String>,
    Ghost<Seq<usize>>,
))
    ensures
        text_of(r.0) == picked(lists@, name@, r.1@),
        script is Some ==> r.1@ == scripted_picks(script),
{
    let ghost base = scripted_picks(script);
    match lists.get(name) {
        Some(items) => {
            if items.len() > 0 {
                let raw = pick(script, 0);
                let template = to_chars(items[raw % items.len()].as_str());
                match script {
                    Some(v) => {
                        let rest = tail(v);
                        let (sub, _) = substitute_core(lists, &template, Some(&rest));
                        (Some(from_chars(&sub)), Ghost(base))
                    },
                    None => {
                        let (sub, Ghost(used)) = substitute_core(lists, &template, None);
                        let ghost picks = seq![raw] + used;
                        assert(later_picks(picks) =~= used);
                        (Some(from_chars(&sub)), Ghost(picks))
                    },
                }
            } else {
                (None, Ghost(base))
            }
        },
        None => (None, Ghost(base)),
    }
}

/// The response of a rule value with the picks of `script`, or with
/// random picks where there is no script. The second part of the result
/// holds the picks that were used.
pub(crate) fn respond_core(
    channel: &str,
    lists: &Lists,
    context: &ReplyContext<'_>,
    map_value: &MapValue,
    script: Option<&Vec<usize>>,
) -> (r: (Option<String>, Ghost<Seq<usize>>))
    ensures
        text_of(r.0) == response(channel@, lists@, context@, map_value@, r.1@),
        script is Some ==> r.1@ == scripted_picks(script),
{
    match map_value {
        MapValue::FileName(name) => {
            let (item, picks) = pick_core(lists, name.as_str(), script);
            match item {
                Some(text) => {
                    let out = subst_context_chars(channel, context, &to_chars(text.as_str()));
                    (Some(from_chars(&out)), picks)
                },
                None => (None, picks),
            }
        },
        MapValue::Value(value) => {
            let (out, picks) = render_core(
                channel,
                lists,
                context,
                &to_chars(value.as_str()),
                script,
            );
            (Some(out), picks)
        },
    }
}

/// The response that a rule value gives in the channel of `state`, with
/// random picks: what some sequence of picks gives.
pub fn make_response(
    state: &ChannelState,
    lm: &ListsMaps,
    context: &ReplyContext<'_>,
    map_value: &MapValue,
) -> (r: Option<String>)
    ensures
        exists|picks: Seq<usize>|
            text_of(r) == #[trigger] response(
                state@.channel_name,
                lm@.lists,
                context@,
                map_value@,
                picks,
            ),
        r is Some <==> responds(lm@.lists, map_value@),
{
    let (r, Ghost(picks)) = respond_core(
        state.channel_name.as_str(),
        &lm.lists,
        context,
        map_value,
        None,
    );
    assert(text_of(r) == response(state@.channel_name, lm@.lists, context@, map_value@, picks));
    r
}

/// The response that a rule value gives in the channel of `state`, with
/// the given picks.
pub fn make_response_picked(
    state: &ChannelState,
    lm: &ListsMaps,
    context: &ReplyContext<'_>,
    map_value: &MapValue,
    picks: &Vec<usize>,
) -> (r: Option<String>)
    ensures
        text_of(r) == response(state@.channel_name, lm@.lists, context@, map_value@, picks@),
{
    let (r, _) = respond_core(
        state.channel_name.as_str(),
        &lm.lists,
        context,
        map_value,
        Some(picks),
    );
    r
}

/// A message after both substitutions, with random picks: what some
/// sequence of picks gives.
pub fn make_response_message(
    state: &ChannelState,
    lm: &ListsMaps,
    context: &ReplyContext<'_>,
    msg: &str,
) -> (r: String)
    ensures
        exists|picks: Seq<usize>|
            r@ == #[trigger] rendered(state@.channel_name, lm@.lists, context@, msg@, picks),
{
    let chars = to_chars(msg);
    let (sub, Ghost(picks)) = substitute_core(&lm.lists, &chars, None);
    let out = subst_context_chars(state.channel_name.as_str(), context, &sub);
    assert(out@ == rendered(state@.channel_name, lm@.lists, context@, msg@, picks));
    from_chars(&out)
}

} // verus!
