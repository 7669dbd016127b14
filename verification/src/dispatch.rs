//! The dispatcher: what the bot makes of one line of chat.

use vstd::prelude::*;
use vstd::string::*;
use crate::channel::{ChannelState, ChannelView, Mood};
use crate::clock::TimePoint;
use crate::commands::{command_effect, op_of, parse_op, run_command, word_at, Effect, Op};
use crate::lists::lookup;
use crate::rules::{ListsMaps, MapValue, RuleValue, RulesView};
use crate::split::{split_words, texts, words};
use crate::state::{channel_key, State, StateView};
use crate::template::{
    context_subst, scripted_picks, subst_context_chars, text_of, ReplyContext, ReplyView,
};
use crate::text::{from_chars, slice, to_chars, to_lowercase, lowercase};
use crate::triggers::{
    fair, handle_triggers_core, lemma_triggered_keeps, lemma_triggered_once, multi_answers,
    choices_of, range_passed, some_token_answers, triggered, triggers_apply, Choice, Draws,
};

verus! {

/// Why a line could not be dispatched.
#[derive(Debug, PartialEq, Eq)]
pub enum DispatchError {
    /// The session holds no state for the channel of the line.
    UnknownChannel,
}

/// The canned response to a line: the command-text table holds the whole
/// line as a key with a literal value, and the response is that value
/// after context substitution.
pub open spec fn canned_text(
    lm: RulesView,
    channel_name: Seq<char>,
    user: Seq<char>,
    data: Seq<char>,
) -> Option<Seq<char>> {
    match lookup(lm.command_text, data) {
        Some(RuleValue::Literal(text)) => Some(
            context_subst(
                channel_name,
                ReplyView { user, trigger: data, trigger_message: data },
                text,
            ),
        ),
        _ => None,
    }
}

/// The operation that a line asks for, with the text that names it: the
/// command table holds the first word of the line as a key with a literal
/// value, and the first word of that value is a mnemonic.
pub open spec fn command_of(lm: RulesView, data: Seq<char>) -> Option<(Op, Seq<char>)> {
    match lookup(lm.commands, word_at(words(data), 0)) {
        Some(RuleValue::Literal(command)) => match op_of(word_at(words(command), 0)) {
            Some(op) => Some((op, command)),
            None => None,
        },
        _ => None,
    }
}

/// Everything that was drawn while one line was dispatched.
pub struct Dice {
    /// The numbers drawn for the text that a command rendered.
    pub picks: Seq<usize>,
    /// What was drawn for the triggers.
    pub choices: Seq<Choice>,
}

/// Everything that is to be drawn while one line is dispatched, laid
/// down beforehand.
#[derive(Debug)]
pub struct Script {
    /// The numbers for the text that a command renders.
    pub picks: Vec<usize>,
    /// What is to be drawn for the triggers: one entry for each word of
    /// the line, and one more for the multi-triggers.
    pub choices: Vec<Draws>,
}

impl View for Script {
    type V = Dice;

    open spec fn view(&self) -> Dice {
        Dice { picks: self.picks@, choices: choices_of(self.choices@) }
    }
}

/// A session and what was sent.
pub struct Outcome {
    pub state: StateView,
    pub sent: Seq<Seq<char>>,
}

/// The channel after the canned response to a line, if there is one, went
/// out.
pub open spec fn after_canned(
    cs: ChannelView,
    lm: RulesView,
    user: Seq<char>,
    data: Seq<char>,
    now: TimePoint,
) -> ChannelView {
    if canned_text(lm, cs.channel_name, user, data) is Some {
        cs.spoken(now)
    } else {
        cs
    }
}

/// What the canned response and the command make of a line, in a channel
/// whose state is `cs`.
pub open spec fn commanded(
    cs: ChannelView,
    ignores: Set<Seq<char>>,
    lm: RulesView,
    channel: Seq<char>,
    user: Seq<char>,
    data: Seq<char>,
    lower: Seq<char>,
    now: TimePoint,
    picks: Seq<usize>,
) -> Effect {
    let canned = canned_text(lm, cs.channel_name, user, data);
    let next = after_canned(cs, lm, user, data, now);
    let first = match canned {
        Some(text) => seq![text],
        None => Seq::empty(),
    };
    match command_of(lm, data) {
        Some((op, command)) => {
            let e = command_effect(
                op,
                command,
                next,
                ignores,
                lm,
                channel,
                user,
                data,
                lower,
                now,
                picks,
            );
            Effect { channel: e.channel, ignores: e.ignores, sent: first + e.sent }
        },
        None => Effect { channel: next, ignores, sent: first },
    }
}

/// What the bot makes of the line `data`, which `user` wrote in `channel`
/// at `now`, the session holding a state for the channel. In order:
///
/// 1. A canned response to the whole line is sent past the throttle.
/// 2. The operation that the first word asks for is carried out, and
///    nothing else is done.
/// 3. Where there was neither, the channel's mood is normal and the user is
///    not ignored, the triggers answer.
pub open spec fn dispatch(
    pre: StateView,
    lm: RulesView,
    channel: Seq<char>,
    user: Seq<char>,
    data: Seq<char>,
    lower: Seq<char>,
    now: TimePoint,
    dice: Dice,
) -> Outcome {
    let key = channel_key(channel);
    let cs = pre.channels[key];
    if canned_text(lm, cs.channel_name, user, data) is Some || command_of(lm, data) is Some {
        let e = commanded(cs, pre.ignores, lm, channel, user, data, lower, now, dice.picks);
        Outcome {
            state: StateView { channels: pre.channels.insert(key, e.channel), ignores: e.ignores },
            sent: e.sent,
        }
    } else if cs.mood != Mood::Normal || pre.ignores.contains(user) {
        Outcome { state: pre, sent: Seq::empty() }
    } else {
        let p = triggered(cs, lm, user, data, lower, now, dice.choices);
        Outcome {
            state: StateView {
                channels: pre.channels.insert(key, p.channel),
                ignores: pre.ignores,
            },
            sent: p.sent,
        }
    }
}

/// Whether the dice fit the line: there is a choice for each word of the
/// line and one more, and every wait was drawn from the channel's range.
pub open spec fn fits(
    pre: StateView,
    channel: Seq<char>,
    lower: Seq<char>,
    dice: Dice,
) -> bool {
    &&& dice.choices.len() == words(lower).len() + 1
    &&& fair(pre.channels[channel_key(channel)], dice.choices)
}

fn find_canned(lm: &ListsMaps, channel_name: &str, user: &str, data: &str) -> (r: Option<String>)
    ensures
        text_of(r) == canned_text(lm@, channel_name@, user@, data@),
{
    match lm.command_text.get(data) {
        Some(MapValue::Value(text)) => {
            let context = ReplyContext { user, trigger: data, trigger_message: data };
            let out = subst_context_chars(channel_name, &context, &to_chars(text.as_str()));
            Some(from_chars(&out))
        },
        _ => None,
    }
}

fn find_command(lm: &ListsMaps, data: &str) -> (r: Option<(Op, Vec<char>)>)
    ensures
        match r {
            Some((op, command)) => command_of(lm@, data@) == Some((op, command@)),
            None => command_of(lm@, data@) is None,
        },
{
    let w = split_words(&to_chars(data));
    let first = if w.len() > 0 {
        from_chars(&w[0])
    } else {
        String::new()
    };
    assert(first@ == word_at(words(data@), 0));
    match lm.commands.get(first.as_str()) {
        Some(MapValue::Value(command)) => {
            let chars = to_chars(command.as_str());
            let c = split_words(&chars);
            let mnemonic = if c.len() > 0 {
                slice(&c[0], 0, c[0].len())
            } else {
                Vec::new()
            };
            assert(mnemonic@ =~= word_at(words(command@), 0));
            match parse_op(&mnemonic) {
                Some(op) => Some((op, chars)),
                None => None,
            }
        },
        _ => None,
    }
}

/// Sends the canned response to a line and carries out its command. The
/// first part of the result says whether there was either; the second
/// holds the picks that were used.
fn command_core(
    cs: &mut ChannelState,
    ignores: &mut Vec<String>,
    outbox: &mut Vec<String>,
    lm: &ListsMaps,
    channel: &str,
    user: &str,
    data: &str,
    lower: &str,
    now: TimePoint,
    script: Option<&Vec<usize>>,
) -> (r: (bool, Ghost<Seq<usize>>))
    ensures
        script is Some ==> r.1@ == scripted_picks(script),
        r.0 == (canned_text(lm@, old(cs)@.channel_name, user@, data@) is Some || command_of(
            lm@,
            data@,
        ) is Some),
        ({
            let e = commanded(
                old(cs)@,
                texts(old(ignores)@).to_set(),
                lm@,
                channel@,
                user@,
                data@,
                lower@,
                now,
                r.1@,
            );
            &&& final(cs)@ == e.channel
            &&& texts(final(ignores)@).to_set() == e.ignores
            &&& texts(final(outbox)@) == texts(old(outbox)@) + e.sent
        }),
{
    let ghost start = texts(outbox@);
    let canned = find_canned(lm, cs.channel_name.as_str(), user, data);
    let was_command = canned.is_some();
    match &canned {
        Some(text) => {
            cs.force_send_message(outbox, text.as_str(), now);
            assert(start.push(text@) =~= start + seq![text@]);
        },
        None => {
            assert(start =~= start + Seq::<Seq<char>>::empty());
        },
    }
    match find_command(lm, data) {
        Some((op, command)) => {
            let Ghost(picks) = run_command(
                op,
                &command,
                cs,
                ignores,
                outbox,
                lm,
                channel,
                user,
                data,
                lower,
                now,
                script,
            );
            proof {
                let e = commanded(
                    old(cs)@,
                    texts(old(ignores)@).to_set(),
                    lm@,
                    channel@,
                    user@,
                    data@,
                    lower@,
                    now,
                    picks,
                );
                assert(texts(outbox@) =~= start + e.sent);
            }
            (true, Ghost(picks))
        },
        None => (was_command, Ghost(scripted_picks(script))),
    }
}

/// The channel of a line without the sign that the transport puts before
/// its name.
pub open spec fn plain_channel(channel: Seq<char>) -> Seq<char> {
    if channel.len() > 0 {
        channel.skip(1)
    } else {
        channel
    }
}

/// Dispatches a line, with what `script` lays down or, where there is no
/// script, with random draws. The second part of the result holds what
/// was used.
fn parse_core(
    state: &mut State,
    outbox: &mut Vec<String>,
    lm: &ListsMaps,
    channel: &str,
    user: &str,
    data: &str,
    lower: &str,
    now: TimePoint,
    script: Option<&Script>,
) -> (r: (Result<(), DispatchError>, Ghost<Dice>))
    ensures
        script matches Some(s) ==> r.1@ == s@,
        r.0 is Err <==> !old(state)@.channels.contains_key(channel_key(channel@)),
        r.0 is Err ==> final(state)@ == old(state)@ && texts(final(outbox)@) == texts(
            old(outbox)@,
        ),
        r.0 is Ok ==> {
            &&& script is None ==> fits(old(state)@, channel@, lower@, r.1@)
            &&& final(state)@ == dispatch(
                old(state)@,
                lm@,
                channel@,
                user@,
                data@,
                lower@,
                now,
                r.1@,
            ).state
            &&& texts(final(outbox)@) == texts(old(outbox)@) + dispatch(
                old(state)@,
                lm@,
                channel@,
                user@,
                data@,
                lower@,
                now,
                r.1@,
            ).sent
        },
{
    let key = State::chash(channel);
    let ghost pre = state@;
    let ghost before = state.channels@;
    let ghost blank: Seq<Choice> = match script {
        Some(s) => choices_of(s.choices@),
        None => Seq::new(
            words(lower@).len() + 1,
            |i: int| Choice { picks: Seq::empty(), draw: pre.channels[key].next_message.min },
        ),
    };
    let ghost no_picks: Seq<usize> = match script {
        Some(s) => s.picks@,
        None => Seq::empty(),
    };
    let picks_script = match script {
        Some(s) => Some(&s.picks),
        None => None,
    };
    let choices_script = match script {
        Some(s) => Some(&s.choices),
        None => None,
    };
    match state.channels.remove(&key) {
        None => {
            assert(state.channels@ =~= before);
            (Err(DispatchError::UnknownChannel), Ghost(Dice { picks: no_picks, choices: blank }))
        },
        Some(cs) => {
            let mut cs = cs;
            let (handled, Ghost(picks)) = command_core(
                &mut cs,
                &mut state.ignores,
                outbox,
                lm,
                channel,
                user,
                data,
                lower,
                now,
                picks_script,
            );
            state.channels.insert(key, cs);
            assert(state.channels@.map_values(|c: ChannelState| c@) =~= before.map_values(
                |c: ChannelState| c@,
            ).insert(key, cs@));
            if handled {
                (Ok(()), Ghost(Dice { picks, choices: blank }))
            } else {
                assert(state@.channels =~= pre.channels);
                assert(texts(outbox@) =~= texts(old(outbox)@));
                let ghost mid = texts(outbox@);
                let Ghost(choices) = handle_triggers_core(
                    state,
                    outbox,
                    lm,
                    channel,
                    user,
                    data,
                    lower,
                    now,
                    choices_script,
                );
                proof {
                    if !triggers_apply(pre, channel@, user@) {
                        assert(mid + Seq::<Seq<char>>::empty() =~= mid);
                    }
                }
                (
                    Ok(()),
                    Ghost(
                        Dice {
                            picks: no_picks,
                            choices: if triggers_apply(pre, channel@, user@) {
                                choices
                            } else {
                                blank
                            },
                        },
                    ),
                )
            }
        },
    }
}

/// Dispatches the line `data`, whose lower-case form is `lower`, with
/// what `script` lays down: nothing is drawn at random. A line from a
/// channel that the session does not hold is refused, and nothing changes;
/// any other line is dispatched as the script gives.
pub fn parse_command_scripted(
    state: &mut State,
    outbox: &mut Vec<String>,
    lm: &ListsMaps,
    channel: &str,
    user: &str,
    data: &str,
    lower: &str,
    now: TimePoint,
    script: &Script,
) -> (r: Result<(), DispatchError>)
    ensures
        r is Err <==> !old(state)@.channels.contains_key(channel_key(channel@)),
        r is Err ==> final(state)@ == old(state)@ && texts(final(outbox)@) == texts(old(outbox)@),
        r is Ok ==> final(state)@ == dispatch(
            old(state)@,
            lm@,
            channel@,
            user@,
            data@,
            lower@,
            now,
            script@,
        ).state && texts(final(outbox)@) == texts(old(outbox)@) + dispatch(
            old(state)@,
            lm@,
            channel@,
            user@,
            data@,
            lower@,
            now,
            script@,
        ).sent,
{
    let (r, Ghost(dice)) = parse_core(
        state,
        outbox,
        lm,
        channel,
        user,
        data,
        lower,
        now,
        Some(script),
    );
    r
}

/// Dispatches the line `data`, whose lower-case form is `lower`. What was
/// sent joins the outbox. A line from a channel that the session does not
/// hold is refused, and nothing changes; any other line is dispatched, as
/// some dice that fit it give.
pub fn parse_command_with(
    state: &mut State,
    outbox: &mut Vec<String>,
    lm: &ListsMaps,
    channel: &str,
    user: &str,
    data: &str,
    lower: &str,
    now: TimePoint,
) -> (r: Result<(), DispatchError>)
    ensures
        r is Err <==> !old(state)@.channels.contains_key(channel_key(channel@)),
        r is Err ==> final(state)@ == old(state)@ && texts(final(outbox)@) == texts(old(outbox)@),
        r is Ok ==> exists|dice: Dice|
            {
                &&& fits(old(state)@, channel@, lower@, dice)
                &&& final(state)@ == (#[trigger] dispatch(
                    old(state)@,
                    lm@,
                    channel@,
                    user@,
                    data@,
                    lower@,
                    now,
                    dice,
                )).state
                &&& texts(final(outbox)@) == texts(old(outbox)@) + dispatch(
                    old(state)@,
                    lm@,
                    channel@,
                    user@,
                    data@,
                    lower@,
                    now,
                    dice,
                ).sent
            },
{
    let (r, Ghost(dice)) = parse_core(state, outbox, lm, channel, user, data, lower, now, None);
    assert(r is Ok ==> state@ == dispatch(
        old(state)@,
        lm@,
        channel@,
        user@,
        data@,
        lower@,
        now,
        dice,
    ).state);
    r
}

/// Dispatches the line `data`, which `user` wrote in `channel` at `now`.
/// The line is brought to lower case and dispatched with that.
pub fn parse_command(
    state: &mut State,
    outbox: &mut Vec<String>,
    lm: &ListsMaps,
    channel: &str,
    user: &str,
    data: &str,
    now: TimePoint,
) -> (r: Result<(), DispatchError>)
    ensures
        r is Err <==> !old(state)@.channels.contains_key(channel_key(channel@)),
        r is Err ==> final(state)@ == old(state)@ && texts(final(outbox)@) == texts(old(outbox)@),
        r is Ok ==> exists|dice: Dice|
            {
                &&& fits(old(state)@, channel@, lowercase(data@), dice)
                &&& final(state)@ == (#[trigger] dispatch(
                    old(state)@,
                    lm@,
                    channel@,
                    user@,
                    data@,
                    lowercase(data@),
                    now,
                    dice,
                )).state
                &&& texts(final(outbox)@) == texts(old(outbox)@) + dispatch(
                    old(state)@,
                    lm@,
                    channel@,
                    user@,
                    data@,
                    lowercase(data@),
                    now,
                    dice,
                ).sent
            },
{
    let lower = to_lowercase(data);
    parse_command_with(state, outbox, lm, channel, user, data, lower.as_str(), now)
}

/// What a line cannot do. It touches no channel but its own, and drops
/// none. Its own channel keeps its name; the time that the channel was off
/// topic in all does not shrink, and grows only by `ON_TOPIC`; and the
/// channel is off topic after the line only if it was before, or the line
/// asked for `OFF_TOPIC`.
pub proof fn lemma_dispatch_keeps(
    pre: StateView,
    lm: RulesView,
    channel: Seq<char>,
    user: Seq<char>,
    data: Seq<char>,
    lower: Seq<char>,
    now: TimePoint,
    dice: Dice,
)
    requires
        pre.channels.contains_key(channel_key(channel)),
    ensures
        ({
            let key = channel_key(channel);
            let post = dispatch(pre, lm, channel, user, data, lower, now, dice).state;
            &&& post.channels.dom() == pre.channels.dom()
            &&& forall|k: u64|
                k != key && pre.channels.contains_key(k) ==> #[trigger] post.channels[k]
                    == pre.channels[k]
            &&& post.channels[key].channel_name == pre.channels[key].channel_name
            &&& post.channels[key].total_off_topic.nanos >= pre.channels[key].total_off_topic.nanos
            &&& post.channels[key].total_off_topic != pre.channels[key].total_off_topic
                ==> command_of(lm, data) is Some && command_of(lm, data)->Some_0.0 == Op::OnTopic
            &&& post.channels[key].off_topic is Some ==> pre.channels[key].off_topic is Some || (
            command_of(lm, data) is Some && command_of(lm, data)->Some_0.0 == Op::OffTopic)
        }),
{
    let key = channel_key(channel);
    let cs = pre.channels[key];
    let post = dispatch(pre, lm, channel, user, data, lower, now, dice).state;
    lemma_triggered_keeps(cs, lm, user, data, lower, now, dice.choices);
    assert(post.channels.dom() =~= pre.channels.dom());
}

/// Whether a line is one for the triggers to answer, in a channel whose
/// state is `cs`: there is no canned response to it, it asks for no
/// operation, the mood is normal, the user is not ignored, and a word of
/// the line or the multi-triggers make the bot answer.
pub open spec fn for_triggers(
    cs: ChannelView,
    ignores: Set<Seq<char>>,
    lm: RulesView,
    user: Seq<char>,
    data: Seq<char>,
    lower: Seq<char>,
) -> bool {
    &&& canned_text(lm, cs.channel_name, user, data) is None
    &&& command_of(lm, data) is None
    &&& cs.mood == Mood::Normal
    &&& !ignores.contains(user)
    &&& some_token_answers(lm, words(lower)) || multi_answers(
        lm,
        cs.channel_name,
        user,
        data,
        lower,
    )
}

/// `RESETCD` waives the cooldown once. After a line that asks for it, the
/// next line that is one for the triggers gets exactly one response
/// through the throttle, at any time that is later than the epoch by the
/// whole range of the throttle; and with that response the wait begins
/// anew.
pub proof fn lemma_reset_waives_cooldown(
    pre: StateView,
    lm: RulesView,
    channel: Seq<char>,
    reset_user: Seq<char>,
    reset_data: Seq<char>,
    reset_lower: Seq<char>,
    reset_now: TimePoint,
    reset_dice: Dice,
    user: Seq<char>,
    data: Seq<char>,
    lower: Seq<char>,
    now: TimePoint,
    dice: Dice,
)
    requires
        pre.channels.contains_key(channel_key(channel)),
        command_of(lm, reset_data) is Some,
        command_of(lm, reset_data)->Some_0.0 == Op::ResetCd,
        ({
            let mid = dispatch(
                pre,
                lm,
                channel,
                reset_user,
                reset_data,
                reset_lower,
                reset_now,
                reset_dice,
            ).state;
            let cs = mid.channels[channel_key(channel)];
            &&& for_triggers(cs, mid.ignores, lm, user, data, lower)
            &&& fits(mid, channel, lower, dice)
            &&& cs.next_message.min.nanos < now.nanos
            &&& cs.next_message.max.nanos <= now.nanos
        }),
    ensures
        ({
            let mid = dispatch(
                pre,
                lm,
                channel,
                reset_user,
                reset_data,
                reset_lower,
                reset_now,
                reset_dice,
            ).state;
            let after = dispatch(mid, lm, channel, user, data, lower, now, dice);
            &&& mid.channels[channel_key(channel)].last_message == TimePoint::unix_epoch()
            &&& after.sent.len() == 1
            &&& after.state.channels[channel_key(channel)].last_message == now
        }),
{
    let key = channel_key(channel);
    let mid = dispatch(
        pre,
        lm,
        channel,
        reset_user,
        reset_data,
        reset_lower,
        reset_now,
        reset_dice,
    ).state;
    let cs = mid.channels[key];
    assert(cs.last_message == TimePoint::unix_epoch());
    assert(range_passed(cs, now));
    lemma_triggered_once(cs, lm, user, data, lower, now, dice.choices);
}

/// What the transport hands over.
#[derive(Debug)]
pub enum Event {
    /// A line of chat. The name of the channel comes with the sign that
    /// the transport puts before it.
    ChatLine { channel: String, user: String, text: String },
    /// Anything else.
    Other,
}

/// The session with the mark of a sent message taken off a channel.
pub open spec fn cleared(s: StateView, key: u64) -> StateView {
    if s.channels.contains_key(key) {
        StateView {
            channels: s.channels.insert(
                key,
                ChannelView { dedup_message: false, ..s.channels[key] },
            ),
            ignores: s.ignores,
        }
    } else {
        s
    }
}

/// Whether the session can deal with an event: it holds the channel of a
/// line of chat. It can deal with every other event.
pub open spec fn known_event(pre: StateView, event: Event) -> bool {
    match event {
        Event::ChatLine { channel, user, text } => pre.channels.contains_key(
            channel_key(plain_channel(channel@)),
        ),
        Event::Other => true,
    }
}

/// Whether the dice fit the event: they fit its line, if it is one.
pub open spec fn fitting(pre: StateView, event: Event, lower: Seq<char>, dice: Dice) -> bool {
    match event {
        Event::ChatLine { channel, user, text } => fits(pre, plain_channel(channel@), lower, dice),
        Event::Other => true,
    }
}

/// The lower-case form of the text of an event.
pub open spec fn event_lower(event: Event) -> Seq<char> {
    match event {
        Event::ChatLine { channel, user, text } => lowercase(text@),
        Event::Other => Seq::empty(),
    }
}

/// What an event makes of a session. A line of chat is dispatched, and
/// after that the mark of a sent message is taken off its channel. Any
/// other event is passed over.
pub open spec fn after_event(
    pre: StateView,
    lm: RulesView,
    event: Event,
    lower: Seq<char>,
    now: TimePoint,
    dice: Dice,
) -> Outcome {
    match event {
        Event::ChatLine { channel, user, text } => {
            let name = plain_channel(channel@);
            let o = dispatch(pre, lm, name, user@, text@, lower, now, dice);
            Outcome { state: cleared(o.state, channel_key(name)), sent: o.sent }
        },
        Event::Other => Outcome { state: pre, sent: Seq::empty() },
    }
}

/// The name of the channel of a line without the sign before it.
pub fn strip_channel(channel: &str) -> (name: String)
    ensures
        name@ == plain_channel(channel@),
{
    let chars = to_chars(channel);
    if chars.len() > 0 {
        let rest = slice(&chars, 1, chars.len());
        assert(rest@ =~= chars@.skip(1));
        from_chars(&rest)
    } else {
        let name = String::new();
        assert(name@ =~= channel@);
        name
    }
}

/// Deals with one event. The second part of the result holds what was
/// drawn.
pub(crate) fn handle_core(
    state: &mut State,
    outbox: &mut Vec<String>,
    lm: &ListsMaps,
    event: &Event,
    lower: &str,
    now: TimePoint,
) -> (r: (Result<(), DispatchError>, Ghost<Dice>))
    ensures
        r.0 is Ok <==> known_event(old(state)@, *event),
        r.0 is Err ==> final(state)@ == old(state)@ && texts(final(outbox)@) == texts(
            old(outbox)@,
        ),
        r.0 is Ok ==> {
            &&& fitting(old(state)@, *event, lower@, r.1@)
            &&& final(state)@ == after_event(old(state)@, lm@, *event, lower@, now, r.1@).state
            &&& texts(final(outbox)@) == texts(old(outbox)@) + after_event(
                old(state)@,
                lm@,
                *event,
                lower@,
                now,
                r.1@,
            ).sent
        },
{
    match event {
        Event::Other => {
            assert(texts(outbox@) + Seq::<Seq<char>>::empty() =~= texts(outbox@));
            (Ok(()), Ghost(Dice { picks: Seq::empty(), choices: Seq::empty() }))
        },
        Event::ChatLine { channel, user, text } => {
            let name = strip_channel(channel.as_str());
            let (r, Ghost(dice)) = parse_core(
                state,
                outbox,
                lm,
                name.as_str(),
                user.as_str(),
                text.as_str(),
                lower,
                now,
                None,
            );
            let ghost mid = state@;
            let key = State::chash(name.as_str());
            let ghost before = state.channels@;
            match state.channels.remove(&key) {
                Some(cs) => {
                    let mut cs = cs;
                    cs.dedup_message = false;
                    state.channels.insert(key, cs);
                    assert(state.channels@.map_values(|c: ChannelState| c@) =~= before.map_values(
                        |c: ChannelState| c@,
                    ).insert(key, cs@));
                },
                None => {
                    assert(state.channels@ =~= before);
                },
            }
            assert(state@ == cleared(mid, key));
            (r, Ghost(dice))
        },
    }
}

/// Deals with one event, a line of chat with its lower-case form `lower`.
/// An event that the session cannot deal with is refused, and nothing
/// changes; any other event is dealt with as some dice that fit it give.
pub fn handle_message_with(
    state: &mut State,
    outbox: &mut Vec<String>,
    lm: &ListsMaps,
    event: &Event,
    lower: &str,
    now: TimePoint,
) -> (r: Result<(), DispatchError>)
    ensures
        r is Ok <==> known_event(old(state)@, *event),
        r is Err ==> final(state)@ == old(state)@ && texts(final(outbox)@) == texts(old(outbox)@),
        r is Ok ==> exists|dice: Dice|
            {
                &&& fitting(old(state)@, *event, lower@, dice)
                &&& final(state)@ == (#[trigger] after_event(
                    old(state)@,
                    lm@,
                    *event,
                    lower@,
                    now,
                    dice,
                )).state
                &&& texts(final(outbox)@) == texts(old(outbox)@) + after_event(
                    old(state)@,
                    lm@,
                    *event,
                    lower@,
                    now,
                    dice,
                ).sent
            },
{
    let (r, Ghost(dice)) = handle_core(state, outbox, lm, event, lower, now);
    assert(r is Ok ==> state@ == after_event(old(state)@, lm@, *event, lower@, now, dice).state);
    r
}

/// The text of an event in lower case.
pub(crate) fn lower_of(event: &Event) -> (lower: String)
    ensures
        lower@ == event_lower(*event),
{
    match event {
        Event::ChatLine { channel, user, text } => to_lowercase(text.as_str()),
        Event::Other => String::new(),
    }
}

/// Deals with one event at `now`; a line of chat is brought to lower case
/// first. An event that the session cannot deal with is refused, and
/// nothing changes; any other event is dealt with as some dice that fit it
/// give.
pub fn handle_message(
    state: &mut State,
    outbox: &mut Vec<String>,
    lm: &ListsMaps,
    event: &Event,
    now: TimePoint,
) -> (r: Result<(), DispatchError>)
    ensures
        r is Ok <==> known_event(old(state)@, *event),
        r is Err ==> final(state)@ == old(state)@ && texts(final(outbox)@) == texts(old(outbox)@),
        r is Ok ==> exists|dice: Dice|
            {
                &&& fitting(old(state)@, *event, event_lower(*event), dice)
                &&& final(state)@ == (#[trigger] after_event(
                    old(state)@,
                    lm@,
                    *event,
                    event_lower(*event),
                    now,
                    dice,
                )).state
                &&& texts(final(outbox)@) == texts(old(outbox)@) + after_event(
                    old(state)@,
                    lm@,
                    *event,
                    event_lower(*event),
                    now,
                    dice,
                ).sent
            },
{
    let lower = lower_of(event);
    handle_message_with(state, outbox, lm, event, lower.as_str(), now)
}

} // verus!
