//! Trigger matching: the words of a message that are keys of the trigger
//! table, and the multi-triggers all of whose parts the message holds.

use vstd::prelude::*;
use vstd::string::*;
use crate::channel::{ChannelState, ChannelView, Mood};
use crate::clock::{TimePoint, TimeSpan};
use crate::lists::lookup;
use crate::random::{draw_span, drawn_from};
use crate::rules::{
    multi_rules, packed, ListsMaps, MapValue, MultiRule, MultiTrigger, RulesView,
};
use crate::split::{join_texts, joined, rows, split_words, texts, words};
use crate::state::{channel_key, ignored, State, StateView};
use crate::template::{
    context_subst, respond_core, responds, response, subst_context_chars, text_of,
    ReplyContext, ReplyView,
};
use crate::text::{contains, from_chars, lowercase, occurs, to_chars, to_lowercase};

verus! {

/// The position of the first empty slot at or after `from`, or the number
/// of slots if there is none.
pub open spec fn first_empty_from(slots: Seq<Seq<char>>, from: int) -> int
    decreases slots.len() - from,
{
    if from < 0 || from >= slots.len() {
        slots.len() as int
    } else if slots[from].len() == 0 {
        from
    } else {
        first_empty_from(slots, from + 1)
    }
}

/// `first_empty_from` stops on the first empty slot, or at the end.
pub proof fn lemma_first_empty(slots: Seq<Seq<char>>, from: int)
    requires
        0 <= from <= slots.len(),
    ensures
        from <= first_empty_from(slots, from) <= slots.len(),
        first_empty_from(slots, from) < slots.len() ==> slots[first_empty_from(slots, from)].len()
            == 0,
        forall|k: int|
            from <= k < first_empty_from(slots, from) ==> (#[trigger] slots[k]).len() > 0,
    decreases slots.len() - from,
{
    if from < slots.len() && slots[from].len() > 0 {
        lemma_first_empty(slots, from + 1);
    }
}

/// Whether the message holds a slot: the slot, after context substitution
/// with no trigger text, is a part of the message in lower case.
pub open spec fn slot_found(
    channel_name: Seq<char>,
    user: Seq<char>,
    data: Seq<char>,
    lower: Seq<char>,
    slot: Seq<char>,
) -> bool {
    occurs(
        lower,
        context_subst(
            channel_name,
            ReplyView { user, trigger: Seq::empty(), trigger_message: data },
            slot,
        ),
    )
}

/// Whether a multi-trigger matches a message: it has a slot before its
/// first empty one, and the message holds every slot before that one.
pub open spec fn multi_matches(
    m: MultiRule,
    channel_name: Seq<char>,
    user: Seq<char>,
    data: Seq<char>,
    lower: Seq<char>,
) -> bool {
    let k = first_empty_from(m.slots, 0);
    k > 0 && forall|i: int|
        0 <= i < k ==> slot_found(channel_name, user, data, lower, #[trigger] m.slots[i])
}

/// Tests whether a multi-trigger matches a message.
pub fn matches_multi(
    trigger: &MultiTrigger,
    channel_name: &str,
    user: &str,
    data: &str,
    lower: &Vec<char>,
) -> (b: bool)
    ensures
        b == multi_matches(trigger@, channel_name@, user@, data@, lower@),
{
    let context = ReplyContext { user, trigger: "", trigger_message: data };
    let ghost slots = trigger@.slots;
    let mut i: usize = 0;
    proof {
        reveal_strlit("");
        assert(""@ =~= Seq::<char>::empty());
    }
    while i < 4
        invariant
            i <= 4,
            slots == trigger@.slots,
            slots.len() == 4,
            context@ == (ReplyView { user: user@, trigger: Seq::empty(), trigger_message: data@ }),
            first_empty_from(slots, 0) == first_empty_from(slots, i as int),
            forall|j: int|
                0 <= j < i ==> slot_found(channel_name@, user@, data@, lower@, #[trigger] slots[j]),
        decreases 4 - i,
    {
        let slot = to_chars(trigger.triggers[i].as_str());
        assert(slot@ == slots[i as int]);
        if slot.len() == 0 {
            return i > 0;
        }
        let part = subst_context_chars(channel_name, &context, &slot);
        proof {
            lemma_first_empty(slots, i + 1);
        }
        if !contains(lower, &part) {
            assert(!slot_found(channel_name@, user@, data@, lower@, slots[i as int]));
            return false;
        }
        i += 1;
    }
    true
}

/// The position of the last multi-trigger that matches the message.
pub open spec fn last_match(
    ms: Seq<MultiRule>,
    channel_name: Seq<char>,
    user: Seq<char>,
    data: Seq<char>,
    lower: Seq<char>,
) -> Option<int>
    decreases ms.len(),
{
    if ms.len() == 0 {
        None
    } else if multi_matches(ms.last(), channel_name, user, data, lower) {
        Some(ms.len() - 1)
    } else {
        last_match(ms.drop_last(), channel_name, user, data, lower)
    }
}

/// Finds the last multi-trigger that matches the message.
pub fn find_last_match(
    triggers: &Vec<MultiTrigger>,
    channel_name: &str,
    user: &str,
    data: &str,
    lower: &Vec<char>,
) -> (r: Option<usize>)
    ensures
        match r {
            Some(k) => k < triggers.len() && last_match(
                multi_rules(triggers@),
                channel_name@,
                user@,
                data@,
                lower@,
            ) == Some(k as int),
            None => last_match(multi_rules(triggers@), channel_name@, user@, data@, lower@)
                is None,
        },
{
    let mut found: Option<usize> = None;
    let mut i: usize = 0;
    let ghost ms = multi_rules(triggers@);
    assert(ms.take(0) =~= Seq::<MultiRule>::empty());
    while i < triggers.len()
        invariant
            i <= triggers.len(),
            ms == multi_rules(triggers@),
            match found {
                Some(k) => k < i && last_match(ms.take(i as int), channel_name@, user@, data@, lower@)
                    == Some(k as int),
                None => last_match(ms.take(i as int), channel_name@, user@, data@, lower@) is None,
            },
        decreases triggers.len() - i,
    {
        proof {
            assert(ms.take(i + 1).drop_last() =~= ms.take(i as int));
            assert(ms.take(i + 1).last() == triggers@[i as int]@);
        }
        if matches_multi(&triggers[i], channel_name, user, data, lower) {
            found = Some(i);
        }
        i += 1;
    }
    assert(ms.take(triggers@.len() as int) =~= ms);
    found
}

/// Whether the message holds every slot that is not empty.
pub open spec fn holds_all(
    slots: Seq<Seq<char>>,
    channel_name: Seq<char>,
    user: Seq<char>,
    data: Seq<char>,
    lower: Seq<char>,
) -> bool {
    forall|i: int|
        0 <= i < slots.len() && (#[trigger] slots[i]).len() > 0 ==> slot_found(
            channel_name,
            user,
            data,
            lower,
            slots[i],
        )
}

/// A multi-trigger whose empty slots come last, and which has a slot that
/// is not empty, matches a message exactly if the message holds every slot
/// that is not empty.
pub proof fn lemma_matches_all_slots(
    m: MultiRule,
    channel_name: Seq<char>,
    user: Seq<char>,
    data: Seq<char>,
    lower: Seq<char>,
)
    requires
        packed(m.slots),
        m.slots.len() > 0,
        m.slots[0].len() > 0,
    ensures
        multi_matches(m, channel_name, user, data, lower) <==> holds_all(
            m.slots,
            channel_name,
            user,
            data,
            lower,
        ),
{
    let k = first_empty_from(m.slots, 0);
    lemma_first_empty(m.slots, 0);
    assert(k > 0);
    if multi_matches(m, channel_name, user, data, lower) {
        assert forall|i: int|
            0 <= i < m.slots.len() && (#[trigger] m.slots[i]).len() > 0 implies slot_found(
            channel_name,
            user,
            data,
            lower,
            m.slots[i],
        ) by {
            if i >= k {
                assert(m.slots[k].len() == 0);
            }
        }
    }
    if holds_all(m.slots, channel_name, user, data, lower) {
        assert forall|i: int| 0 <= i < k implies slot_found(
            channel_name,
            user,
            data,
            lower,
            #[trigger] m.slots[i],
        ) by {
            assert(m.slots[i].len() > 0);
        }
    }
}

/// The order of the slots does not matter: two multi-triggers with the
/// same slots in another order match the same messages.
pub proof fn lemma_slot_order(
    a: MultiRule,
    b: MultiRule,
    channel_name: Seq<char>,
    user: Seq<char>,
    data: Seq<char>,
    lower: Seq<char>,
)
    requires
        packed(a.slots),
        packed(b.slots),
        a.slots.to_multiset() == b.slots.to_multiset(),
        a.slots.len() > 0,
        a.slots[0].len() > 0,
    ensures
        multi_matches(a, channel_name, user, data, lower) == multi_matches(
            b,
            channel_name,
            user,
            data,
            lower,
        ),
{
    assert(a.slots.len() == b.slots.len()) by {
        a.slots.to_multiset_ensures();
        b.slots.to_multiset_ensures();
    }
    assert forall|x: Seq<char>| a.slots.contains(x) <==> b.slots.contains(x) by {
        vstd::seq_lib::to_multiset_contains(a.slots, x);
        vstd::seq_lib::to_multiset_contains(b.slots, x);
    }
    assert(b.slots[0].len() > 0) by {
        assert(a.slots.contains(a.slots[0]));
        assert(b.slots.contains(a.slots[0]));
        let j = choose|j: int| 0 <= j < b.slots.len() && b.slots[j] == a.slots[0];
        if b.slots[0].len() == 0 && j > 0 {
            assert(b.slots[j].len() == 0);
        }
    }
    lemma_matches_all_slots(a, channel_name, user, data, lower);
    lemma_matches_all_slots(b, channel_name, user, data, lower);
    if holds_all(a.slots, channel_name, user, data, lower) {
        assert forall|i: int|
            0 <= i < b.slots.len() && (#[trigger] b.slots[i]).len() > 0 implies slot_found(
            channel_name,
            user,
            data,
            lower,
            b.slots[i],
        ) by {
            assert(b.slots.contains(b.slots[i]));
            assert(a.slots.contains(b.slots[i]));
            let j = choose|j: int| 0 <= j < a.slots.len() && a.slots[j] == b.slots[i];
            assert(a.slots[j].len() > 0);
        }
    }
    if holds_all(b.slots, channel_name, user, data, lower) {
        assert forall|i: int|
            0 <= i < a.slots.len() && (#[trigger] a.slots[i]).len() > 0 implies slot_found(
            channel_name,
            user,
            data,
            lower,
            a.slots[i],
        ) by {
            assert(a.slots.contains(a.slots[i]));
            assert(b.slots.contains(a.slots[i]));
            let j = choose|j: int| 0 <= j < b.slots.len() && b.slots[j] == a.slots[i];
            assert(b.slots[j].len() > 0);
        }
    }
}

/// The last match wins: the multi-trigger that answers is one that
/// matches, and none that was declared after it matches.
pub proof fn lemma_last_match(
    ms: Seq<MultiRule>,
    channel_name: Seq<char>,
    user: Seq<char>,
    data: Seq<char>,
    lower: Seq<char>,
)
    ensures
        match last_match(ms, channel_name, user, data, lower) {
            Some(k) => 0 <= k < ms.len() && multi_matches(ms[k], channel_name, user, data, lower)
                && forall|j: int|
                k < j < ms.len() ==> !multi_matches(
                    #[trigger] ms[j],
                    channel_name,
                    user,
                    data,
                    lower,
                ),
            None => forall|j: int|
                0 <= j < ms.len() ==> !multi_matches(
                    #[trigger] ms[j],
                    channel_name,
                    user,
                    data,
                    lower,
                ),
        },
    decreases ms.len(),
{
    if ms.len() > 0 {
        lemma_last_match(ms.drop_last(), channel_name, user, data, lower);
        if !multi_matches(ms.last(), channel_name, user, data, lower) {
            match last_match(ms, channel_name, user, data, lower) {
                Some(k) => {
                    assert(ms.drop_last()[k] == ms[k]);
                    assert forall|j: int| k < j < ms.len() implies !multi_matches(
                        #[trigger] ms[j],
                        channel_name,
                        user,
                        data,
                        lower,
                    ) by {
                        if j < ms.len() - 1 {
                            assert(ms.drop_last()[j] == ms[j]);
                        }
                    }
                },
                None => {
                    assert forall|j: int| 0 <= j < ms.len() implies !multi_matches(
                        #[trigger] ms[j],
                        channel_name,
                        user,
                        data,
                        lower,
                    ) by {
                        if j < ms.len() - 1 {
                            assert(ms.drop_last()[j] == ms[j]);
                        }
                    }
                },
            }
        }
    }
}

/// What was drawn for one candidate response.
pub struct Choice {
    /// The numbers drawn to render the response.
    pub picks: Seq<usize>,
    /// The wait drawn for the throttle.
    pub draw: TimeSpan,
}

/// What is to be drawn for one candidate response, laid down beforehand.
#[derive(Debug)]
pub struct Draws {
    /// The numbers to render the response with.
    pub picks: Vec<usize>,
    /// The wait for the throttle.
    pub draw: TimeSpan,
}

impl View for Draws {
    type V = Choice;

    open spec fn view(&self) -> Choice {
        Choice { picks: self.picks@, draw: self.draw }
    }
}

/// The views of a vector of draws.
pub open spec fn choices_of(v: Seq<Draws>) -> Seq<Choice> {
    Seq::new(v.len(), |i: int| v[i]@)
}

/// The choice of index `i`; where there is none, no picks and no wait.
pub open spec fn choice_at(choices: Seq<Choice>, i: int) -> Choice {
    if 0 <= i < choices.len() {
        choices[i]
    } else {
        Choice { picks: Seq::empty(), draw: TimeSpan { nanos: 0 } }
    }
}

/// Whether every wait was drawn from the channel's range.
pub open spec fn fair(cs: ChannelView, choices: Seq<Choice>) -> bool {
    forall|i: int|
        0 <= i < choices.len() ==> drawn_from(
            cs.next_message.min,
            cs.next_message.max,
            (#[trigger] choices[i]).draw,
        )
}

/// A channel and what was sent to it so far.
pub struct Progress {
    pub channel: ChannelView,
    pub sent: Seq<Seq<char>>,
}

/// The progress after the attempt to send a candidate response through the
/// throttle. Where there is no candidate, nothing is attempted.
pub open spec fn attempt(
    p: Progress,
    now: TimePoint,
    candidate: Option<Seq<char>>,
    draw: TimeSpan,
) -> Progress {
    match candidate {
        Some(text) => if p.channel.may_speak(now, draw) {
            Progress { channel: p.channel.spoken(now), sent: p.sent.push(text) }
        } else {
            p
        },
        None => p,
    }
}

/// The response to one word of a message, if the word is a trigger.
pub open spec fn token_response(
    lm: RulesView,
    channel_name: Seq<char>,
    user: Seq<char>,
    data: Seq<char>,
    token: Seq<char>,
    picks: Seq<usize>,
) -> Option<Seq<char>> {
    match lookup(lm.triggers, token) {
        Some(value) => response(
            channel_name,
            lm.lists,
            ReplyView { user, trigger: token, trigger_message: data },
            value,
            picks,
        ),
        None => None,
    }
}

/// The progress after the given words were dealt with in order, each one
/// that is a trigger giving a candidate response of its own; the choice
/// of index `i` is what was drawn for the word of index `i`.
pub open spec fn tokens_fold(
    cs: ChannelView,
    lm: RulesView,
    user: Seq<char>,
    data: Seq<char>,
    now: TimePoint,
    tokens: Seq<Seq<char>>,
    choices: Seq<Choice>,
) -> Progress
    decreases tokens.len(),
{
    if tokens.len() == 0 {
        Progress { channel: cs, sent: Seq::empty() }
    } else {
        let choice = choice_at(choices, tokens.len() - 1);
        attempt(
            tokens_fold(cs, lm, user, data, now, tokens.drop_last(), choices),
            now,
            token_response(lm, cs.channel_name, user, data, tokens.last(), choice.picks),
            choice.draw,
        )
    }
}

/// The response of the multi-triggers to a message: that of the last one
/// that matches, with its slots, joined by spaces, as the trigger text.
pub open spec fn multi_response(
    lm: RulesView,
    channel_name: Seq<char>,
    user: Seq<char>,
    data: Seq<char>,
    lower: Seq<char>,
    picks: Seq<usize>,
) -> Option<Seq<char>> {
    match last_match(lm.multi_triggers, channel_name, user, data, lower) {
        Some(k) => response(
            channel_name,
            lm.lists,
            ReplyView {
                user,
                trigger: joined(lm.multi_triggers[k].slots, " "@),
                trigger_message: data,
            },
            lm.multi_triggers[k].value,
            picks,
        ),
        None => None,
    }
}

/// What the triggers make of a message: first each word of the message in
/// lower case, then the multi-triggers. The choice of index `i` is what
/// was drawn for the word of index `i`, and the choice behind these is
/// what was drawn for the multi-triggers.
pub open spec fn triggered(
    cs: ChannelView,
    lm: RulesView,
    user: Seq<char>,
    data: Seq<char>,
    lower: Seq<char>,
    now: TimePoint,
    choices: Seq<Choice>,
) -> Progress {
    let tokens = words(lower);
    let last = choice_at(choices, tokens.len() as int);
    attempt(
        tokens_fold(cs, lm, user, data, now, tokens, choices),
        now,
        multi_response(lm, cs.channel_name, user, data, lower, last.picks),
        last.draw,
    )
}

/// Only the choices for the words at hand matter.
pub proof fn lemma_choices_agree(
    cs: ChannelView,
    lm: RulesView,
    user: Seq<char>,
    data: Seq<char>,
    now: TimePoint,
    tokens: Seq<Seq<char>>,
    c1: Seq<Choice>,
    c2: Seq<Choice>,
)
    requires
        forall|i: int| 0 <= i < tokens.len() ==> choice_at(c1, i) == choice_at(c2, i),
    ensures
        tokens_fold(cs, lm, user, data, now, tokens, c1) == tokens_fold(
            cs,
            lm,
            user,
            data,
            now,
            tokens,
            c2,
        ),
    decreases tokens.len(),
{
    if tokens.len() > 0 {
        lemma_choices_agree(cs, lm, user, data, now, tokens.drop_last(), c1, c2);
    }
}

/// Whether `b` is `a` but for what speaking changes: the two clocks, the
/// mark of a sent message and the override.
pub open spec fn differs_by_speech(a: ChannelView, b: ChannelView) -> bool {
    b == (ChannelView {
        dedup_message: b.dedup_message,
        last_advice: b.last_advice,
        last_message: b.last_message,
        direct_message: b.direct_message,
        ..a
    })
}

/// Answering the words of a message changes nothing of a channel but what
/// speaking changes.
pub proof fn lemma_tokens_fold_keeps(
    cs: ChannelView,
    lm: RulesView,
    user: Seq<char>,
    data: Seq<char>,
    now: TimePoint,
    tokens: Seq<Seq<char>>,
    choices: Seq<Choice>,
)
    ensures
        differs_by_speech(cs, tokens_fold(cs, lm, user, data, now, tokens, choices).channel),
    decreases tokens.len(),
{
    if tokens.len() > 0 {
        lemma_tokens_fold_keeps(cs, lm, user, data, now, tokens.drop_last(), choices);
    }
}

/// The triggers change nothing of a channel but what speaking changes.
pub proof fn lemma_triggered_keeps(
    cs: ChannelView,
    lm: RulesView,
    user: Seq<char>,
    data: Seq<char>,
    lower: Seq<char>,
    now: TimePoint,
    choices: Seq<Choice>,
)
    ensures
        differs_by_speech(cs, triggered(cs, lm, user, data, lower, now, choices).channel),
{
    lemma_tokens_fold_keeps(cs, lm, user, data, now, words(lower), choices);
}

/// Whether a word of a message makes the bot answer: it is a key of the
/// trigger table, and its value gives a response.
pub open spec fn token_answers(lm: RulesView, token: Seq<char>) -> bool {
    match lookup(lm.triggers, token) {
        Some(value) => responds(lm.lists, value),
        None => false,
    }
}

/// Whether one of the words makes the bot answer.
pub open spec fn some_token_answers(lm: RulesView, tokens: Seq<Seq<char>>) -> bool {
    exists|i: int| 0 <= i < tokens.len() && token_answers(lm, #[trigger] tokens[i])
}

/// Whether the multi-triggers make the bot answer a message: one of them
/// matches, and the value of the last that does gives a response.
pub open spec fn multi_answers(
    lm: RulesView,
    channel_name: Seq<char>,
    user: Seq<char>,
    data: Seq<char>,
    lower: Seq<char>,
) -> bool {
    match last_match(lm.multi_triggers, channel_name, user, data, lower) {
        Some(k) => responds(lm.lists, lm.multi_triggers[k].value),
        None => false,
    }
}

/// Whether the wait is over for every draw: the whole range of the
/// throttle has passed since the last message.
pub open spec fn range_passed(cs: ChannelView, now: TimePoint) -> bool {
    &&& cs.last_message.nanos + cs.next_message.min.nanos < now.nanos
    &&& cs.last_message.nanos + cs.next_message.max.nanos <= now.nanos
}

/// While the whole range of the throttle has passed, the first word that
/// makes the bot answer gets its response through, and no word after it
/// does.
pub proof fn lemma_tokens_fold_once(
    cs: ChannelView,
    lm: RulesView,
    user: Seq<char>,
    data: Seq<char>,
    now: TimePoint,
    tokens: Seq<Seq<char>>,
    choices: Seq<Choice>,
)
    requires
        fair(cs, choices),
        tokens.len() <= choices.len(),
        range_passed(cs, now),
    ensures
        some_token_answers(lm, tokens) ==> tokens_fold(
            cs,
            lm,
            user,
            data,
            now,
            tokens,
            choices,
        ).sent.len() == 1 && tokens_fold(cs, lm, user, data, now, tokens, choices).channel
            == cs.spoken(now),
        !some_token_answers(lm, tokens) ==> tokens_fold(cs, lm, user, data, now, tokens, choices)
            == (Progress { channel: cs, sent: Seq::empty() }),
    decreases tokens.len(),
{
    if tokens.len() > 0 {
        let rest = tokens.drop_last();
        lemma_tokens_fold_once(cs, lm, user, data, now, rest, choices);
        let choice = choices[tokens.len() - 1];
        assert(choice == choice_at(choices, tokens.len() - 1));
        assert(drawn_from(cs.next_message.min, cs.next_message.max, choice.draw));
        if some_token_answers(lm, rest) {
            let i = choose|i: int| 0 <= i < rest.len() && token_answers(lm, #[trigger] rest[i]);
            assert(rest[i] == tokens[i]);
            assert(some_token_answers(lm, tokens));
        } else {
            if token_answers(lm, tokens.last()) {
                assert(tokens[tokens.len() - 1] == tokens.last());
                assert(some_token_answers(lm, tokens));
            } else {
                if some_token_answers(lm, tokens) {
                    let i = choose|i: int|
                        0 <= i < tokens.len() && token_answers(lm, #[trigger] tokens[i]);
                    if i < rest.len() {
                        assert(rest[i] == tokens[i]);
                    }
                }
            }
        }
    } else {
        assert(!some_token_answers(lm, tokens));
    }
}

/// While the whole range of the throttle has passed, a message that makes
/// the triggers answer gets exactly one response, and after it the wait
/// begins anew.
pub proof fn lemma_triggered_once(
    cs: ChannelView,
    lm: RulesView,
    user: Seq<char>,
    data: Seq<char>,
    lower: Seq<char>,
    now: TimePoint,
    choices: Seq<Choice>,
)
    requires
        fair(cs, choices),
        choices.len() == words(lower).len() + 1,
        range_passed(cs, now),
        some_token_answers(lm, words(lower)) || multi_answers(
            lm,
            cs.channel_name,
            user,
            data,
            lower,
        ),
    ensures
        triggered(cs, lm, user, data, lower, now, choices).sent.len() == 1,
        triggered(cs, lm, user, data, lower, now, choices).channel == cs.spoken(now),
{
    lemma_tokens_fold_once(cs, lm, user, data, now, words(lower), choices);
    let last = choices[words(lower).len() as int];
    assert(drawn_from(cs.next_message.min, cs.next_message.max, last.draw));
}

/// Sends a candidate response through the throttle, with the scripted
/// wait, or with a wait drawn at random where none is scripted. The result
/// is the wait that was used.
fn try_send(
    cs: &mut ChannelState,
    outbox: &mut Vec<String>,
    candidate: &Option<String>,
    now: TimePoint,
    scripted: Option<TimeSpan>,
    Ghost(p): Ghost<Progress>,
    Ghost(start): Ghost<Seq<Seq<char>>>,
) -> (draw: TimeSpan)
    requires
        old(cs)@ == p.channel,
        texts(old(outbox)@) == start + p.sent,
    ensures
        scripted matches Some(d) ==> draw == d,
        scripted is None ==> drawn_from(
            old(cs)@.next_message.min,
            old(cs)@.next_message.max,
            draw,
        ),
        final(cs)@ == attempt(p, now, text_of(*candidate), draw).channel,
        texts(final(outbox)@) == start + attempt(p, now, text_of(*candidate), draw).sent,
{
    match candidate {
        Some(text) => {
            let draw = match scripted {
                Some(d) => d,
                None => draw_span(cs.next_message.min, cs.next_message.max),
            };
            cs.send_message_with(outbox, text.as_str(), now, draw);
            assert((start + p.sent).push(text@) =~= start + p.sent.push(text@));
            draw
        },
        None => match scripted {
            Some(d) => d,
            None => cs.next_message.min,
        },
    }
}

/// The picks that a script lays down for the candidate of index `i`.
fn scripted_picks_at(script: Option<&Vec<Draws>>, i: usize) -> (r: Option<Vec<usize>>)
    ensures
        match script {
            Some(v) => r is Some && r->Some_0@ == choice_at(choices_of(v@), i as int).picks,
            None => r is None,
        },
{
    match script {
        Some(v) => {
            let mut picks: Vec<usize> = Vec::new();
            if i < v.len() {
                let source = &v[i].picks;
                let mut k: usize = 0;
                while k < source.len()
                    invariant
                        k <= source.len(),
                        picks@ == source@.take(k as int),
                    decreases source.len() - k,
                {
                    picks.push(source[k]);
                    k += 1;
                }
                assert(picks@ =~= source@);
            }
            Some(picks)
        },
        None => None,
    }
}

/// The wait that a script lays down for the candidate of index `i`.
fn scripted_draw_at(script: Option<&Vec<Draws>>, i: usize) -> (r: Option<TimeSpan>)
    ensures
        match script {
            Some(v) => r == Some(choice_at(choices_of(v@), i as int).draw),
            None => r is None,
        },
{
    match script {
        Some(v) => if i < v.len() {
            Some(v[i].draw)
        } else {
            Some(TimeSpan { nanos: 0 })
        },
        None => None,
    }
}

/// One candidate response: rendered and sent through the throttle with
/// what the script lays down for the index `i`, or with random draws. The
/// result holds what was used.
fn candidate_step(
    cs: &mut ChannelState,
    outbox: &mut Vec<String>,
    lm: &ListsMaps,
    context: &ReplyContext<'_>,
    value: Option<&MapValue>,
    now: TimePoint,
    script: Option<&Vec<Draws>>,
    i: usize,
    Ghost(p): Ghost<Progress>,
    Ghost(start): Ghost<Seq<Seq<char>>>,
) -> (choice: Ghost<Choice>)
    requires
        old(cs)@ == p.channel,
        texts(old(outbox)@) == start + p.sent,
    ensures
        script matches Some(v) ==> choice@ == choice_at(choices_of(v@), i as int),
        script is None ==> drawn_from(
            old(cs)@.next_message.min,
            old(cs)@.next_message.max,
            choice@.draw,
        ),
        ({
            let candidate = match value {
                Some(v) => response(
                    old(cs)@.channel_name,
                    lm@.lists,
                    context@,
                    v@,
                    choice@.picks,
                ),
                None => None,
            };
            &&& final(cs)@ == attempt(p, now, candidate, choice@.draw).channel
            &&& texts(final(outbox)@) == start + attempt(p, now, candidate, choice@.draw).sent
        }),
{
    let picks_script = scripted_picks_at(script, i);
    let (candidate, Ghost(picks)) = match value {
        Some(v) => match &picks_script {
            Some(ps) => respond_core(cs.channel_name.as_str(), &lm.lists, context, v, Some(ps)),
            None => respond_core(cs.channel_name.as_str(), &lm.lists, context, v, None),
        },
        None => (
            None,
            Ghost(
                match picks_script {
                    Some(ps) => ps@,
                    None => Seq::empty(),
                },
            ),
        ),
    };
    let draw = try_send(
        cs,
        outbox,
        &candidate,
        now,
        scripted_draw_at(script, i),
        Ghost(p),
        Ghost(start),
    );
    Ghost(Choice { picks, draw })
}

/// Lets the triggers answer a message, with what `script` lays down or,
/// where there is no script, with random draws. The result holds what was
/// used.
pub(crate) fn trigger_core(
    cs: &mut ChannelState,
    outbox: &mut Vec<String>,
    lm: &ListsMaps,
    user: &str,
    data: &str,
    lower: &str,
    now: TimePoint,
    script: Option<&Vec<Draws>>,
) -> (choices: Ghost<Seq<Choice>>)
    ensures
        script matches Some(v) ==> choices@ == choices_of(v@),
        script is None ==> choices@.len() == words(lower@).len() + 1 && fair(old(cs)@, choices@),
        final(cs)@ == triggered(old(cs)@, lm@, user@, data@, lower@, now, choices@).channel,
        texts(final(outbox)@) == texts(old(outbox)@) + triggered(
            old(cs)@,
            lm@,
            user@,
            data@,
            lower@,
            now,
            choices@,
        ).sent,
{
    let ghost cs0 = cs@;
    let ghost start = texts(outbox@);
    let lower_chars = to_chars(lower);
    let tokens = split_words(&lower_chars);
    let ghost mut choices: Seq<Choice> = match script {
        Some(v) => choices_of(v@),
        None => Seq::empty(),
    };
    let mut i: usize = 0;
    assert(rows(tokens@).take(0) =~= Seq::<Seq<char>>::empty());
    assert(start + Seq::<Seq<char>>::empty() =~= start);
    while i < tokens.len()
        invariant
            i <= tokens.len(),
            rows(tokens@) == words(lower@),
            script is Some ==> choices == choices_of(script->Some_0@),
            script is None ==> choices.len() == i && fair(cs0, choices),
            cs@.channel_name == cs0.channel_name,
            cs@.next_message == cs0.next_message,
            cs@ == tokens_fold(
                cs0,
                lm@,
                user@,
                data@,
                now,
                rows(tokens@).take(i as int),
                choices,
            ).channel,
            texts(outbox@) == start + tokens_fold(
                cs0,
                lm@,
                user@,
                data@,
                now,
                rows(tokens@).take(i as int),
                choices,
            ).sent,
        decreases tokens.len() - i,
    {
        let ghost done = rows(tokens@).take(i as int);
        let ghost p = tokens_fold(cs0, lm@, user@, data@, now, done, choices);
        let token = from_chars(&tokens[i]);
        let context = ReplyContext { user, trigger: token.as_str(), trigger_message: data };
        let Ghost(choice) = candidate_step(
            cs,
            outbox,
            lm,
            &context,
            lm.triggers.get(token.as_str()),
            now,
            script,
            i,
            Ghost(p),
            Ghost(start),
        );
        proof {
            if script is None {
                let old_choices = choices;
                choices = choices.push(choice);
                lemma_choices_agree(cs0, lm@, user@, data@, now, done, old_choices, choices);
            }
            assert(choice_at(choices, i as int) == choice);
            assert(rows(tokens@).take(i + 1).drop_last() =~= done);
            assert(rows(tokens@).take(i + 1).last() == token@);
        }
        i += 1;
    }
    assert(rows(tokens@).take(tokens@.len() as int) =~= rows(tokens@));
    let ghost p = tokens_fold(cs0, lm@, user@, data@, now, words(lower@), choices);
    let found = find_last_match(
        &lm.multi_triggers,
        cs.channel_name.as_str(),
        user,
        data,
        &lower_chars,
    );
    let Ghost(choice) = match found {
        Some(k) => {
            let multi = &lm.multi_triggers[k];
            let mut parts: Vec<String> = Vec::new();
            let mut j: usize = 0;
            assert(texts(parts@) =~= multi@.slots.take(0));
            while j < 4
                invariant
                    j <= 4,
                    multi@.slots.len() == 4,
                    texts(parts@) == multi@.slots.take(j as int),
                decreases 4 - j,
            {
                let ghost before = texts(parts@);
                parts.push(multi.triggers[j].clone());
                assert(texts(parts@) =~= before.push(multi@.slots[j as int]));
                assert(multi@.slots.take(j + 1) =~= multi@.slots.take(j as int).push(
                    multi@.slots[j as int],
                ));
                j += 1;
            }
            assert(multi@.slots.take(4) =~= multi@.slots);
            let trigger = join_texts(&parts, " ");
            let context = ReplyContext { user, trigger: trigger.as_str(), trigger_message: data };
            candidate_step(
                cs,
                outbox,
                lm,
                &context,
                Some(&multi.value),
                now,
                script,
                i,
                Ghost(p),
                Ghost(start),
            )
        },
        None => {
            let context = ReplyContext { user, trigger: "", trigger_message: data };
            candidate_step(cs, outbox, lm, &context, None, now, script, i, Ghost(p), Ghost(start))
        },
    };
    proof {
        if script is None {
            let old_choices = choices;
            choices = choices.push(choice);
            lemma_choices_agree(cs0, lm@, user@, data@, now, words(lower@), old_choices, choices);
        }
        assert(choice_at(choices, words(lower@).len() as int) == choice);
    }
    Ghost(choices)
}

/// Lets the triggers answer the message `data`, whose lower-case form is
/// `lower`: every word of `lower` that is a key of the trigger table gives
/// a candidate response, and so does the last multi-trigger that matches.
/// Each candidate goes through the throttle by itself. What happens is
/// what some fair sequence of choices gives.
pub fn respond_to_triggers(
    cs: &mut ChannelState,
    outbox: &mut Vec<String>,
    lm: &ListsMaps,
    user: &str,
    data: &str,
    lower: &str,
    now: TimePoint,
)
    ensures
        exists|choices: Seq<Choice>|
            {
                &&& choices.len() == words(lower@).len() + 1
                &&& fair(old(cs)@, choices)
                &&& final(cs)@ == (#[trigger] triggered(
                    old(cs)@,
                    lm@,
                    user@,
                    data@,
                    lower@,
                    now,
                    choices,
                )).channel
                &&& texts(final(outbox)@) == texts(old(outbox)@) + triggered(
                    old(cs)@,
                    lm@,
                    user@,
                    data@,
                    lower@,
                    now,
                    choices,
                ).sent
            },
{
    let Ghost(choices) = trigger_core(cs, outbox, lm, user, data, lower, now, None);
    assert(cs@ == triggered(old(cs)@, lm@, user@, data@, lower@, now, choices).channel);
}

/// Whether the triggers get to answer a line of `user` in `channel`: the
/// session holds the channel, its mood is normal, and the user is not
/// ignored.
pub open spec fn triggers_apply(pre: StateView, channel: Seq<char>, user: Seq<char>) -> bool {
    &&& pre.channels.contains_key(channel_key(channel))
    &&& pre.channels[channel_key(channel)].mood == Mood::Normal
    &&& !pre.ignores.contains(user)
}

/// Lets the triggers answer a line, where they get to. The result holds
/// what was drawn.
pub(crate) fn handle_triggers_core(
    state: &mut State,
    outbox: &mut Vec<String>,
    lm: &ListsMaps,
    channel: &str,
    user: &str,
    data: &str,
    lower: &str,
    now: TimePoint,
    script: Option<&Vec<Draws>>,
) -> (choices: Ghost<Seq<Choice>>)
    ensures
        script matches Some(v) ==> choices@ == choices_of(v@),
        !triggers_apply(old(state)@, channel@, user@) ==> final(state)@ == old(state)@ && texts(
            final(outbox)@,
        ) == texts(old(outbox)@),
        triggers_apply(old(state)@, channel@, user@) ==> {
            let cs = old(state)@.channels[channel_key(channel@)];
            let p = triggered(cs, lm@, user@, data@, lower@, now, choices@);
            &&& script is None ==> choices@.len() == words(lower@).len() + 1 && fair(cs, choices@)
            &&& final(state)@.channels == old(state)@.channels.insert(
                channel_key(channel@),
                p.channel,
            )
            &&& final(state)@.ignores == old(state)@.ignores
            &&& texts(final(outbox)@) == texts(old(outbox)@) + p.sent
        },
{
    let key = State::chash(channel);
    let ghost before = state.channels@;
    let ghost base: Seq<Choice> = match script {
        Some(v) => choices_of(v@),
        None => Seq::empty(),
    };
    match state.channels.remove(&key) {
        None => {
            assert(state.channels@ =~= before);
            Ghost(base)
        },
        Some(cs) => {
            let mut cs = cs;
            let choices = if cs.mood == Mood::Normal && !ignored(&state.ignores, user) {
                trigger_core(&mut cs, outbox, lm, user, data, lower, now, script)
            } else {
                Ghost(base)
            };
            state.channels.insert(key, cs);
            assert(state.channels@.map_values(|c: ChannelState| c@) =~= before.map_values(
                |c: ChannelState| c@,
            ).insert(key, cs@));
            assert(!triggers_apply(old(state)@, channel@, user@) ==> state@.channels =~= old(
                state,
            )@.channels);
            choices
        },
    }
}

/// Lets the triggers answer the line `data`, whose lower-case form is
/// `lower`, where they get to; where not, nothing changes. What happens is
/// what some fair sequence of choices gives.
pub fn handle_triggers_with(
    state: &mut State,
    outbox: &mut Vec<String>,
    lm: &ListsMaps,
    channel: &str,
    user: &str,
    data: &str,
    lower: &str,
    now: TimePoint,
)
    ensures
        !triggers_apply(old(state)@, channel@, user@) ==> final(state)@ == old(state)@ && texts(
            final(outbox)@,
        ) == texts(old(outbox)@),
        triggers_apply(old(state)@, channel@, user@) ==> exists|choices: Seq<Choice>|
            {
                &&& choices.len() == words(lower@).len() + 1
                &&& fair(old(state)@.channels[channel_key(channel@)], choices)
                &&& final(state)@.channels == old(state)@.channels.insert(
                    channel_key(channel@),
                    (#[trigger] triggered(
                        old(state)@.channels[channel_key(channel@)],
                        lm@,
                        user@,
                        data@,
                        lower@,
                        now,
                        choices,
                    )).channel,
                )
                &&& final(state)@.ignores == old(state)@.ignores
                &&& texts(final(outbox)@) == texts(old(outbox)@) + triggered(
                    old(state)@.channels[channel_key(channel@)],
                    lm@,
                    user@,
                    data@,
                    lower@,
                    now,
                    choices,
                ).sent
            },
{
    let Ghost(choices) = handle_triggers_core(
        state,
        outbox,
        lm,
        channel,
        user,
        data,
        lower,
        now,
        None,
    );
    assert(triggers_apply(old(state)@, channel@, user@) ==> state@.channels == old(
        state,
    )@.channels.insert(
        channel_key(channel@),
        triggered(
            old(state)@.channels[channel_key(channel@)],
            lm@,
            user@,
            data@,
            lower@,
            now,
            choices,
        ).channel,
    ));
}

/// Lets the triggers answer the line `data`, which `user` wrote in
/// `channel` at `now`. The line is brought to lower case and answered
/// with that.
pub fn handle_triggers(
    state: &mut State,
    outbox: &mut Vec<String>,
    lm: &ListsMaps,
    channel: &str,
    user: &str,
    data: &str,
    now: TimePoint,
)
    ensures
        !triggers_apply(old(state)@, channel@, user@) ==> final(state)@ == old(state)@ && texts(
            final(outbox)@,
        ) == texts(old(outbox)@),
        triggers_apply(old(state)@, channel@, user@) ==> exists|choices: Seq<Choice>|
            {
                &&& choices.len() == words(lowercase(data@)).len() + 1
                &&& fair(old(state)@.channels[channel_key(channel@)], choices)
                &&& final(state)@.channels == old(state)@.channels.insert(
                    channel_key(channel@),
                    (#[trigger] triggered(
                        old(state)@.channels[channel_key(channel@)],
                        lm@,
                        user@,
                        data@,
                        lowercase(data@),
                        now,
                        choices,
                    )).channel,
                )
                &&& final(state)@.ignores == old(state)@.ignores
                &&& texts(final(outbox)@) == texts(old(outbox)@) + triggered(
                    old(state)@.channels[channel_key(channel@)],
                    lm@,
                    user@,
                    data@,
                    lowercase(data@),
                    now,
                    choices,
                ).sent
            },
{
    let lower = to_lowercase(data);
    handle_triggers_with(state, outbox, lm, channel, user, data, lower.as_str(), now)
}

} // verus!
