//! The operations that a chat line can ask for by its first word, and
//! what each of them does to a channel.

use vstd::prelude::*;
use vstd::string::*;
use crate::channel::{ChannelState, ChannelView, Mood, BACKOFF_ADVICE_SECS, PASSIVE_ADVICE_SECS};
use crate::clock::{MinMax, TimePoint, TimeSpan};
use crate::number::{decimal, format_u128, format_u64, parse_i32, parse_u64, signed_of, unsigned_of};
use crate::rules::{ListsMaps, RuleValue, RulesView, Table};
use crate::split::{holds, join_texts, joined, rows, split_words, texts, words};
use crate::state::{add_ignore, remove_ignore};
use crate::template::{
    pick_core, picked, render_core, rendered, scripted_picks, ReplyContext, ReplyView,
};
use crate::text::{extend, from_chars, same_chars, to_chars};

verus! {

/// An operation.
#[derive(Clone, Copy, Debug, PartialEq, Eq, Structural)]
pub enum Op {
    Commands,
    Config,
    Leave,
    Join,
    RandomStatement,
    RandomQuestion,
    IgnoreMe,
    NoticeMe,
    OffTopic,
    OnTopic,
    TotalOffTopic,
    SetTopic,
    ResetCd,
    RepeatMapped,
    Repeat,
}

/// The operation that a mnemonic names.
pub open spec fn op_of(word: Seq<char>) -> Option<Op> {
    if word == "COMMANDS"@ {
        Some(Op::Commands)
    } else if word == "CONFIG"@ {
        Some(Op::Config)
    } else if word == "LEAVE"@ {
        Some(Op::Leave)
    } else if word == "JOIN"@ {
        Some(Op::Join)
    } else if word == "RANDOM_STATEMENT"@ {
        Some(Op::RandomStatement)
    } else if word == "RANDOM_QUESTION"@ {
        Some(Op::RandomQuestion)
    } else if word == "IGNORE_ME"@ {
        Some(Op::IgnoreMe)
    } else if word == "NOTICE_ME"@ {
        Some(Op::NoticeMe)
    } else if word == "OFF_TOPIC"@ {
        Some(Op::OffTopic)
    } else if word == "ON_TOPIC"@ {
        Some(Op::OnTopic)
    } else if word == "TOTAL_OFF_TOPIC"@ {
        Some(Op::TotalOffTopic)
    } else if word == "SET_TOPIC"@ {
        Some(Op::SetTopic)
    } else if word == "RESETCD"@ {
        Some(Op::ResetCd)
    } else if word == "REPEAT_MAPPED"@ {
        Some(Op::RepeatMapped)
    } else if word == "REPEAT"@ {
        Some(Op::Repeat)
    } else {
        None
    }
}

fn is_word(word: &Vec<char>, name: &str) -> (b: bool)
    ensures
        b == (word@ == name@),
{
    let n = to_chars(name);
    same_chars(word, &n)
}

/// Reads a mnemonic.
pub fn parse_op(word: &Vec<char>) -> (r: Option<Op>)
    ensures
        r == op_of(word@),
{
    if is_word(word, "COMMANDS") {
        Some(Op::Commands)
    } else if is_word(word, "CONFIG") {
        Some(Op::Config)
    } else if is_word(word, "LEAVE") {
        Some(Op::Leave)
    } else if is_word(word, "JOIN") {
        Some(Op::Join)
    } else if is_word(word, "RANDOM_STATEMENT") {
        Some(Op::RandomStatement)
    } else if is_word(word, "RANDOM_QUESTION") {
        Some(Op::RandomQuestion)
    } else if is_word(word, "IGNORE_ME") {
        Some(Op::IgnoreMe)
    } else if is_word(word, "NOTICE_ME") {
        Some(Op::NoticeMe)
    } else if is_word(word, "OFF_TOPIC") {
        Some(Op::OffTopic)
    } else if is_word(word, "ON_TOPIC") {
        Some(Op::OnTopic)
    } else if is_word(word, "TOTAL_OFF_TOPIC") {
        Some(Op::TotalOffTopic)
    } else if is_word(word, "SET_TOPIC") {
        Some(Op::SetTopic)
    } else if is_word(word, "RESETCD") {
        Some(Op::ResetCd)
    } else if is_word(word, "REPEAT_MAPPED") {
        Some(Op::RepeatMapped)
    } else if is_word(word, "REPEAT") {
        Some(Op::Repeat)
    } else {
        None
    }
}

/// The word of index `i`, or the empty text where there is none.
pub open spec fn word_at(w: Seq<Seq<char>>, i: int) -> Seq<char> {
    if 0 <= i < w.len() {
        w[i]
    } else {
        Seq::empty()
    }
}

/// The words from index `k` on.
pub open spec fn words_after(w: Seq<Seq<char>>, k: int) -> Seq<Seq<char>> {
    if 0 <= k <= w.len() {
        w.skip(k)
    } else {
        Seq::empty()
    }
}

fn get_word(w: &Vec<Vec<char>>, i: usize) -> (r: Vec<char>)
    ensures
        r@ == word_at(rows(w@), i as int),
{
    if i < w.len() {
        let r = crate::text::slice(&w[i], 0, w[i].len());
        assert(r@ =~= w@[i as int]@);
        r
    } else {
        Vec::new()
    }
}

fn join_after(w: &Vec<Vec<char>>, k: usize, sep: &str) -> (r: Vec<char>)
    ensures
        r@ == joined(words_after(rows(w@), k as int), sep@),
{
    let mut parts: Vec<String> = Vec::new();
    if k > w.len() {
        assert(texts(parts@) =~= Seq::<Seq<char>>::empty());
        return to_chars(join_texts(&parts, sep).as_str());
    }
    let mut i: usize = k;
    assert(texts(parts@) =~= rows(w@).subrange(k as int, i as int));
    while i < w.len()
        invariant
            k <= i <= w.len(),
            texts(parts@) == rows(w@).subrange(k as int, i as int),
        decreases w.len() - i,
    {
        let ghost before = texts(parts@);
        parts.push(from_chars(&w[i]));
        assert(texts(parts@) =~= before.push(w@[i as int]@));
        assert(rows(w@).subrange(k as int, i + 1) =~= rows(w@).subrange(k as int, i as int).push(
            w@[i as int]@,
        ));
        i += 1;
    }
    assert(rows(w@).subrange(k as int, w@.len() as int) =~= rows(w@).skip(k as int));
    to_chars(join_texts(&parts, sep).as_str())
}

/// A span of time in hours, minutes and seconds.
pub open spec fn hms(span: TimeSpan) -> Seq<char> {
    let secs = span.whole_secs();
    decimal(secs / 60 / 60) + "h "@ + decimal(secs / 60 % 60) + "m "@ + decimal(secs % 60) + "s"@
}

fn write_hms(out: &mut Vec<char>, span: TimeSpan)
    ensures
        final(out)@ == old(out)@ + hms(span),
{
    let secs = span.as_secs();
    let ghost start = out@;
    extend(out, &format_u128(secs / 60 / 60));
    extend(out, &to_chars("h "));
    extend(out, &format_u128(secs / 60 % 60));
    extend(out, &to_chars("m "));
    extend(out, &format_u128(secs % 60));
    extend(out, &to_chars("s"));
    assert(out@ =~= start + hms(span));
}

/// `text` written `n` times in a row.
pub open spec fn repeated(text: Seq<char>, n: nat) -> Seq<char>
    decreases n,
{
    if n == 0 {
        Seq::empty()
    } else {
        repeated(text, (n - 1) as nat) + text
    }
}

fn repeat_text(text: &Vec<char>, n: u32) -> (r: Vec<char>)
    ensures
        r@ == repeated(text@, n as nat),
{
    let mut r: Vec<char> = Vec::new();
    let mut i: u32 = 0;
    while i < n
        invariant
            i <= n,
            r@ == repeated(text@, i as nat),
        decreases n - i,
    {
        extend(&mut r, text);
        i += 1;
    }
    r
}

/// The most repetitions that are made.
pub const MAX_REPEAT: u32 = 200;

/// How often a text is repeated on the argument `arg`: as often as the
/// signed 32-bit number that it denotes says, though not more often than
/// `MAX_REPEAT` and not at all for a negative number; once where it
/// denotes no such number.
pub open spec fn repeat_count(arg: Seq<char>) -> nat {
    match signed_of(arg, i32::MAX as nat) {
        Some(n) => if n > MAX_REPEAT {
            MAX_REPEAT as nat
        } else if n < 0 {
            0
        } else {
            n as nat
        },
        None => 1,
    }
}

fn count_repeats(arg: &Vec<char>) -> (n: u32)
    ensures
        n == repeat_count(arg@),
{
    match parse_i32(arg) {
        Some(n) => if n > 200 {
            MAX_REPEAT
        } else if n < 0 {
            0
        } else {
            n as u32
        },
        None => 1,
    }
}

/// The keys of a table, in order.
pub open spec fn keys_of(t: Seq<(Seq<char>, RuleValue)>) -> Seq<Seq<char>> {
    Seq::new(t.len(), |i: int| t[i].0)
}

/// The texts of `s` in the order of their first occurrence, each once.
pub open spec fn distinct(s: Seq<Seq<char>>) -> Seq<Seq<char>>
    decreases s.len(),
{
    if s.len() == 0 {
        Seq::empty()
    } else if distinct(s.drop_last()).contains(s.last()) {
        distinct(s.drop_last())
    } else {
        distinct(s.drop_last()).push(s.last())
    }
}

/// The names that `COMMANDS` lists: the canned phrases, then the command
/// names, each once.
pub open spec fn command_names(lm: RulesView) -> Seq<Seq<char>> {
    distinct(keys_of(lm.command_text) + keys_of(lm.commands))
}

fn add_names(names: &mut Vec<String>, table: &Table, Ghost(seen): Ghost<Seq<Seq<char>>>)
    requires
        texts(old(names)@) == distinct(seen),
    ensures
        texts(final(names)@) == distinct(seen + keys_of(table@)),
{
    let mut i: usize = 0;
    assert(seen + keys_of(table@).take(0) =~= seen);
    while i < table.entries.len()
        invariant
            i <= table.entries.len(),
            texts(names@) == distinct(seen + keys_of(table@).take(i as int)),
        decreases table.entries.len() - i,
    {
        let ghost before = texts(names@);
        let ghost sofar = seen + keys_of(table@).take(i as int);
        let key = &table.entries[i].0;
        proof {
            assert(seen + keys_of(table@).take(i + 1) =~= sofar.push(key@));
            assert(sofar.push(key@).drop_last() =~= sofar);
        }
        if !holds(names, key.as_str()) {
            names.push(key.clone());
            assert(texts(names@) =~= before.push(key@));
        }
        i += 1;
    }
    assert(keys_of(table@).take(table@.len() as int) =~= keys_of(table@));
}

/// The names that `COMMANDS` lists, joined by a comma and a space.
pub fn list_commands(lm: &ListsMaps) -> (r: String)
    ensures
        r@ == joined(command_names(lm@), ", "@),
{
    let mut names: Vec<String> = Vec::new();
    assert(texts(names@) =~= distinct(Seq::empty()));
    add_names(&mut names, &lm.command_text, Ghost(Seq::empty()));
    assert(Seq::<Seq<char>>::empty() + keys_of(lm.command_text@) =~= keys_of(lm.command_text@));
    add_names(&mut names, &lm.commands, Ghost(keys_of(lm.command_text@)));
    join_texts(&names, ", ")
}

/// What a command did: the channel after it, the ignored users after it,
/// and what it sent.
pub struct Effect {
    pub channel: ChannelView,
    pub ignores: Set<Seq<char>>,
    pub sent: Seq<Seq<char>>,
}

/// Nothing was sent.
pub open spec fn quiet(cs: ChannelView, ignores: Set<Seq<char>>) -> Effect {
    Effect { channel: cs, ignores, sent: Seq::empty() }
}

/// `text` was sent at `now`, past the throttle.
pub open spec fn said(
    cs: ChannelView,
    ignores: Set<Seq<char>>,
    now: TimePoint,
    text: Seq<char>,
) -> Effect {
    Effect { channel: cs.spoken(now), ignores, sent: seq![text] }
}

/// How to use `CONFIG cd`.
pub open spec fn usage() -> Seq<char> {
    "invalid command, expected format \"cd <min> <max>\" where <min> and <max> are integer numbers"@
}

/// What `CONFIG` does. `cd` with two unsigned numbers sets the range of
/// the throttle to these numbers of seconds, the smaller one first, and
/// confirms it; `cd` with anything else is answered with the usage; any
/// other setting is passed over.
pub open spec fn config_effect(
    cs: ChannelView,
    ignores: Set<Seq<char>>,
    lower: Seq<char>,
    now: TimePoint,
) -> Effect {
    let w = words(lower);
    if w.len() >= 2 && w[1] == "cd"@ {
        if w.len() >= 4 {
            match (unsigned_of(w[2], u64::MAX as nat), unsigned_of(w[3], u64::MAX as nat)) {
                (Some(a), Some(b)) => {
                    let min = if a > b {
                        b
                    } else {
                        a
                    };
                    let max = if a > b {
                        a
                    } else {
                        b
                    };
                    said(
                        ChannelView {
                            next_message: MinMax {
                                min: TimeSpan::of_secs(min as int),
                                max: TimeSpan::of_secs(max as int),
                            },
                            ..cs
                        },
                        ignores,
                        now,
                        "successfully changed message cooldown to "@ + decimal(min) + "s-"@
                            + decimal(max) + "s"@,
                    )
                },
                _ => said(cs, ignores, now, usage()),
            }
        } else {
            said(cs, ignores, now, usage())
        }
    } else {
        quiet(cs, ignores)
    }
}

/// What the operation `op` does at `now`, asked for by `user` with the
/// line `data` in `channel`, whose state is `cs`. `command` is the text
/// that the command table holds for the line's first word, `lower` is the
/// line in lower case, and `picks` are the numbers drawn for the one text
/// that the operation renders.
pub open spec fn command_effect(
    op: Op,
    command: Seq<char>,
    cs: ChannelView,
    ignores: Set<Seq<char>>,
    lm: RulesView,
    channel: Seq<char>,
    user: Seq<char>,
    data: Seq<char>,
    lower: Seq<char>,
    now: TimePoint,
    picks: Seq<usize>,
) -> Effect {
    let context = ReplyView { user, trigger: data, trigger_message: data };
    match op {
        Op::Commands => said(cs, ignores, now, joined(command_names(lm), ", "@)),
        Op::Config => config_effect(cs, ignores, lower, now),
        Op::Leave => quiet(
            ChannelView {
                next_advice: TimeSpan::of_secs(BACKOFF_ADVICE_SECS as int),
                mood: Mood::Backoff,
                ..cs
            },
            ignores,
        ),
        Op::Join => quiet(
            ChannelView {
                next_advice: TimeSpan::of_secs(PASSIVE_ADVICE_SECS as int),
                mood: Mood::Normal,
                ..cs
            },
            ignores,
        ),
        Op::RandomStatement => match picked(lm.lists, "passive_advice"@, picks) {
            Some(text) => said(cs, ignores, now, text),
            None => quiet(cs, ignores),
        },
        Op::RandomQuestion => match picked(lm.lists, "questions"@, picks) {
            Some(text) => said(cs, ignores, now, text),
            None => quiet(cs, ignores),
        },
        Op::IgnoreMe => quiet(cs, ignores.insert(user)),
        Op::NoticeMe => quiet(cs, ignores.remove(user)),
        Op::OffTopic => match cs.off_topic {
            Some(stamp) => said(
                cs,
                ignores,
                now,
                rendered(
                    cs.channel_name,
                    lm.lists,
                    context,
                    channel + " has already been off topic for "@ + hms(now.since(stamp)),
                    picks,
                ),
            ),
            None => said(
                ChannelView { off_topic: Some(now), ..cs },
                ignores,
                now,
                rendered(cs.channel_name, lm.lists, context, "starting off topic timer"@, picks),
            ),
        },
        Op::OnTopic => match cs.off_topic {
            Some(start) => said(
                ChannelView {
                    off_topic: None,
                    total_off_topic: cs.total_off_topic.plus(now.since(start)),
                    ..cs
                },
                ignores,
                now,
                rendered(
                    cs.channel_name,
                    lm.lists,
                    context,
                    channel + " is finally on topic, it took them "@ + hms(now.since(start)),
                    picks,
                ),
            ),
            None => quiet(cs, ignores),
        },
        Op::TotalOffTopic => said(
            cs,
            ignores,
            now,
            rendered(
                cs.channel_name,
                lm.lists,
                context,
                "The streamer has been off topic a total of "@ + hms(cs.total_off_topic),
                picks,
            ),
        ),
        Op::SetTopic => said(
            cs,
            ignores,
            now,
            rendered(
                cs.channel_name,
                lm.lists,
                context,
                "current topic is now "@ + word_at(words(data), 1),
                picks,
            ),
        ),
        Op::ResetCd => quiet(ChannelView { last_message: TimePoint::unix_epoch(), ..cs }, ignores),
        Op::RepeatMapped => said(
            cs,
            ignores,
            now,
            rendered(
                cs.channel_name,
                lm.lists,
                context,
                repeated(
                    joined(words_after(words(command), 1), " "@) + " "@,
                    repeat_count(word_at(words(data), 1)),
                ),
                picks,
            ),
        ),
        Op::Repeat => said(
            cs,
            ignores,
            now,
            rendered(
                cs.channel_name,
                lm.lists,
                context,
                repeated(
                    joined(words_after(words(data), 2), " "@) + " "@,
                    repeat_count(word_at(words(data), 1)),
                ),
                picks,
            ),
        ),
    }
}

/// Sends `text` past the throttle.
fn say(cs: &mut ChannelState, outbox: &mut Vec<String>, text: &str, now: TimePoint)
    ensures
        final(cs)@ == old(cs)@.spoken(now),
        texts(final(outbox)@) == texts(old(outbox)@) + seq![text@],
{
    let ghost before = texts(outbox@);
    cs.force_send_message(outbox, text, now);
    assert(before.push(text@) =~= before + seq![text@]);
}

/// Renders `text` and sends it past the throttle.
fn say_rendered(
    cs: &mut ChannelState,
    outbox: &mut Vec<String>,
    lm: &ListsMaps,
    context: &ReplyContext<'_>,
    text: &Vec<char>,
    now: TimePoint,
    script: Option<&Vec<usize>>,
) -> (picks: Ghost<Seq<usize>>)
    ensures
        final(cs)@ == old(cs)@.spoken(now),
        texts(final(outbox)@) == texts(old(outbox)@) + seq![
            rendered(old(cs)@.channel_name, lm@.lists, context@, text@, picks@),
        ],
        script is Some ==> picks@ == scripted_picks(script),
{
    let (out, picks) = render_core(cs.channel_name.as_str(), &lm.lists, context, text, script);
    say(cs, outbox, out.as_str(), now);
    picks
}

fn run_config(cs: &mut ChannelState, outbox: &mut Vec<String>, lower: &str, now: TimePoint)
    ensures
        final(cs)@ == config_effect(
            old(cs)@,
            Set::empty(),
            lower@,
            now,
        ).channel,
        texts(final(outbox)@) == texts(old(outbox)@) + config_effect(
            old(cs)@,
            Set::empty(),
            lower@,
            now,
        ).sent,
{
    let w = split_words(&to_chars(lower));
    let ghost before = texts(outbox@);
    let usage_text =
        "invalid command, expected format \"cd <min> <max>\" where <min> and <max> are integer numbers";
    if w.len() >= 2 && is_word(&w[1], "cd") {
        if w.len() >= 4 {
            let first = parse_u64(&w[2]);
            let second = parse_u64(&w[3]);
            match (first, second) {
                (Some(a), Some(b)) => {
                    let min = if a > b {
                        b
                    } else {
                        a
                    };
                    let max = if a > b {
                        a
                    } else {
                        b
                    };
                    cs.next_message = MinMax::new(
                        TimeSpan::from_secs(min),
                        TimeSpan::from_secs(max),
                    );
                    let mut text = to_chars("successfully changed message cooldown to ");
                    extend(&mut text, &format_u64(min));
                    extend(&mut text, &to_chars("s-"));
                    extend(&mut text, &format_u64(max));
                    extend(&mut text, &to_chars("s"));
                    say(cs, outbox, from_chars(&text).as_str(), now);
                },
                _ => {
                    say(cs, outbox, usage_text, now);
                },
            }
        } else {
            say(cs, outbox, usage_text, now);
        }
    } else {
        assert(before + Seq::<Seq<char>>::empty() =~= before);
    }
}

/// Carries out the operation `op`. The result holds the picks that were
/// used for the text that it rendered.
pub(crate) fn run_command(
    op: Op,
    command: &Vec<char>,
    cs: &mut ChannelState,
    ignores: &mut Vec<String>,
    outbox: &mut Vec<String>,
    lm: &ListsMaps,
    channel: &str,
    user: &str,
    data: &str,
    lower: &str,
    now: TimePoint,
    script: Option<&Vec<usize>>,
) -> (picks: Ghost<Seq<usize>>)
    ensures
        ({
            let e = command_effect(
                op,
                command@,
                old(cs)@,
                texts(old(ignores)@).to_set(),
                lm@,
                channel@,
                user@,
                data@,
                lower@,
                now,
                picks@,
            );
            &&& final(cs)@ == e.channel
            &&& texts(final(ignores)@).to_set() == e.ignores
            &&& texts(final(outbox)@) == texts(old(outbox)@) + e.sent
        }),
        script is Some ==> picks@ == scripted_picks(script),
{
    let ghost before = texts(outbox@);
    let ghost base = scripted_picks(script);
    let context = ReplyContext { user, trigger: data, trigger_message: data };
    assert(before + Seq::<Seq<char>>::empty() =~= before);
    match op {
        Op::Commands => {
            let names = list_commands(lm);
            say(cs, outbox, names.as_str(), now);
            Ghost(base)
        },
        Op::Config => {
            run_config(cs, outbox, lower, now);
            Ghost(base)
        },
        Op::Leave => {
            cs.next_advice = TimeSpan::from_secs(BACKOFF_ADVICE_SECS);
            cs.set_mood(Mood::Backoff);
            Ghost(base)
        },
        Op::Join => {
            cs.next_advice = TimeSpan::from_secs(PASSIVE_ADVICE_SECS);
            cs.set_mood(Mood::Normal);
            Ghost(base)
        },
        Op::RandomStatement => {
            let (text, picks) = pick_core(&lm.lists, "passive_advice", script);
            match text {
                Some(t) => {
                    say(cs, outbox, t.as_str(), now);
                },
                None => {},
            }
            picks
        },
        Op::RandomQuestion => {
            let (text, picks) = pick_core(&lm.lists, "questions", script);
            match text {
                Some(t) => {
                    say(cs, outbox, t.as_str(), now);
                },
                None => {},
            }
            picks
        },
        Op::IgnoreMe => {
            add_ignore(ignores, user);
            Ghost(base)
        },
        Op::NoticeMe => {
            remove_ignore(ignores, user);
            Ghost(base)
        },
        Op::OffTopic => {
            match cs.off_topic {
                Some(stamp) => {
                    let mut text = to_chars(channel);
                    extend(&mut text, &to_chars(" has already been off topic for "));
                    write_hms(&mut text, now.elapsed_since(stamp));
                    assert(text@ =~= channel@ + " has already been off topic for "@ + hms(
                        now.since(stamp),
                    ));
                    say_rendered(cs, outbox, lm, &context, &text, now, script)
                },
                None => {
                    cs.off_topic = Some(now);
                    let text = to_chars("starting off topic timer");
                    say_rendered(cs, outbox, lm, &context, &text, now, script)
                },
            }
        },
        Op::OnTopic => {
            match cs.off_topic {
                Some(start) => {
                    cs.off_topic = None;
                    let duration = now.elapsed_since(start);
                    cs.total_off_topic = cs.total_off_topic.saturating_add(duration);
                    let mut text = to_chars(channel);
                    extend(&mut text, &to_chars(" is finally on topic, it took them "));
                    write_hms(&mut text, duration);
                    assert(text@ =~= channel@ + " is finally on topic, it took them "@ + hms(
                        now.since(start),
                    ));
                    say_rendered(cs, outbox, lm, &context, &text, now, script)
                },
                None => Ghost(base),
            }
        },
        Op::TotalOffTopic => {
            let mut text = to_chars("The streamer has been off topic a total of ");
            write_hms(&mut text, cs.total_off_topic);
            say_rendered(cs, outbox, lm, &context, &text, now, script)
        },
        Op::SetTopic => {
            let w = split_words(&to_chars(data));
            let mut text = to_chars("current topic is now ");
            extend(&mut text, &get_word(&w, 1));
            say_rendered(cs, outbox, lm, &context, &text, now, script)
        },
        Op::ResetCd => {
            cs.last_message = TimePoint::epoch();
            Ghost(base)
        },
        Op::RepeatMapped => {
            let w = split_words(&to_chars(data));
            let c = split_words(command);
            let mut unit = join_after(&c, 1, " ");
            extend(&mut unit, &to_chars(" "));
            let count = count_repeats(&get_word(&w, 1));
            let text = repeat_text(&unit, count);
            say_rendered(cs, outbox, lm, &context, &text, now, script)
        },
        Op::Repeat => {
            let w = split_words(&to_chars(data));
            let count = count_repeats(&get_word(&w, 1));
            let mut unit = join_after(&w, 2, " ");
            extend(&mut unit, &to_chars(" "));
            let text = repeat_text(&unit, count);
            say_rendered(cs, outbox, lm, &context, &text, now, script)
        },
    }
}

} // verus!
