//! What the bot says by itself: a random item of a list, and the sweep
//! that decides once per round whether a channel is due for one.

use vstd::prelude::*;
use vstd::string::*;
use std::collections::HashMap;
use crate::channel::{ChannelState, ChannelView, Mood, PASSIVE_ADVICE_SECS};
use crate::clock::{TimePoint, TimeSpan};
use crate::random::{draw_span, drawn_from};
use crate::rules::{ListsMaps, RulesView};
use crate::split::texts;
use crate::template::{pick_core, picked};
use crate::state::{State, StateView};
use crate::triggers::{Choice, Draws, Progress};

verus! {

/// What sending a passive message does: an item of the list `name` is
/// picked and substituted; it goes out if it is forced or passes the
/// throttle. Where the list gives nothing, nothing happens.
pub open spec fn passive(
    cs: ChannelView,
    lm: RulesView,
    name: Seq<char>,
    now: TimePoint,
    force: bool,
    picks: Seq<usize>,
    draw: TimeSpan,
) -> Progress {
    match picked(lm.lists, name, picks) {
        Some(text) => if force || cs.may_speak(now, draw) {
            Progress { channel: cs.spoken(now), sent: seq![text] }
        } else {
            Progress { channel: cs, sent: Seq::empty() }
        },
        None => Progress { channel: cs, sent: Seq::empty() },
    }
}

/// Sends an item of the list `name`, with what `script` lays down or,
/// where there is no script, with random draws. The result holds what was
/// used.
fn send_passive(
    state: &mut ChannelState,
    outbox: &mut Vec<String>,
    lm: &ListsMaps,
    name: &str,
    now: TimePoint,
    force: bool,
    script: Option<&Draws>,
) -> (r: (Ghost<Seq<usize>>, TimeSpan))
    ensures
        script matches Some(d) ==> r.0@ == d@.picks && r.1 == d@.draw,
        script is None ==> drawn_from(
            old(state)@.next_message.min,
            old(state)@.next_message.max,
            r.1,
        ),
        final(state)@ == passive(old(state)@, lm@, name@, now, force, r.0@, r.1).channel,
        texts(final(outbox)@) == texts(old(outbox)@) + passive(
            old(state)@,
            lm@,
            name@,
            now,
            force,
            r.0@,
            r.1,
        ).sent,
{
    let ghost start = texts(outbox@);
    let (text, picks) = match script {
        Some(d) => pick_core(&lm.lists, name, Some(&d.picks)),
        None => pick_core(&lm.lists, name, None),
    };
    let draw = match script {
        Some(d) => d.draw,
        None => draw_span(state.next_message.min, state.next_message.max),
    };
    assert(start + Seq::<Seq<char>>::empty() =~= start);
    match text {
        Some(t) => {
            if force {
                state.force_send_message(outbox, t.as_str(), now);
            } else {
                state.send_message_with(outbox, t.as_str(), now, draw);
            }
            assert(start.push(t@) =~= start + seq![t@]);
        },
        None => {},
    }
    (picks, draw)
}

/// Sends a random piece of advice, from the list `passive_advice`: past
/// the throttle if `force` is set, through it if not. What happens is what
/// some picks and some wait drawn from the channel's range give.
pub fn send_passive_advice(
    state: &mut ChannelState,
    outbox: &mut Vec<String>,
    lm: &ListsMaps,
    now: TimePoint,
    force: bool,
)
    ensures
        exists|picks: Seq<usize>, draw: TimeSpan|
            {
                &&& drawn_from(old(state)@.next_message.min, old(state)@.next_message.max, draw)
                &&& final(state)@ == (#[trigger] passive(
                    old(state)@,
                    lm@,
                    "passive_advice"@,
                    now,
                    force,
                    picks,
                    draw,
                )).channel
                &&& texts(final(outbox)@) == texts(old(outbox)@) + passive(
                    old(state)@,
                    lm@,
                    "passive_advice"@,
                    now,
                    force,
                    picks,
                    draw,
                ).sent
            },
{
    let (Ghost(picks), draw) = send_passive(state, outbox, lm, "passive_advice", now, force, None);
    assert(state@ == passive(old(state)@, lm@, "passive_advice"@, now, force, picks, draw).channel);
}

/// Sends a random question, from the list `questions`: past the throttle
/// if `force` is set, through it if not. What happens is what some picks
/// and some wait drawn from the channel's range give.
pub fn send_passive_question(
    state: &mut ChannelState,
    outbox: &mut Vec<String>,
    lm: &ListsMaps,
    now: TimePoint,
    force: bool,
)
    ensures
        exists|picks: Seq<usize>, draw: TimeSpan|
            {
                &&& drawn_from(old(state)@.next_message.min, old(state)@.next_message.max, draw)
                &&& final(state)@ == (#[trigger] passive(
                    old(state)@,
                    lm@,
                    "questions"@,
                    now,
                    force,
                    picks,
                    draw,
                )).channel
                &&& texts(final(outbox)@) == texts(old(outbox)@) + passive(
                    old(state)@,
                    lm@,
                    "questions"@,
                    now,
                    force,
                    picks,
                    draw,
                ).sent
            },
{
    let (Ghost(picks), draw) = send_passive(state, outbox, lm, "questions", now, force, None);
    assert(state@ == passive(old(state)@, lm@, "questions"@, now, force, picks, draw).channel);
}

/// Whether the channel's deadline for passive speech has passed.
pub open spec fn advice_due(cs: ChannelView, now: TimePoint) -> bool {
    now.past(cs.last_advice, cs.next_advice)
}

/// What the sweep does to a channel. Before the deadline, nothing. After
/// it, a channel in backoff returns to normal mood and to the normal
/// interval; a channel of normal mood gets a piece of advice through the
/// throttle, unless a message went out to it in this round.
pub open spec fn swept(
    cs: ChannelView,
    lm: RulesView,
    now: TimePoint,
    picks: Seq<usize>,
    draw: TimeSpan,
) -> Progress {
    if !advice_due(cs, now) {
        Progress { channel: cs, sent: Seq::empty() }
    } else {
        match cs.mood {
            Mood::Normal => if cs.dedup_message {
                Progress { channel: cs, sent: Seq::empty() }
            } else {
                passive(cs, lm, "passive_advice"@, now, false, picks, draw)
            },
            Mood::Backoff => Progress {
                channel: ChannelView {
                    mood: Mood::Normal,
                    next_advice: TimeSpan::of_secs(PASSIVE_ADVICE_SECS as int),
                    ..cs
                },
                sent: Seq::empty(),
            },
        }
    }
}

/// Sweeps one channel, with what `script` lays down or, where there is no
/// script, with random draws. The result holds what was used.
fn sweep_core(
    state: &mut ChannelState,
    outbox: &mut Vec<String>,
    lm: &ListsMaps,
    now: TimePoint,
    script: Option<&Draws>,
) -> (r: (Ghost<Seq<usize>>, Ghost<TimeSpan>))
    ensures
        script matches Some(d) ==> r.0@ == d@.picks && r.1@ == d@.draw,
        script is None ==> drawn_from(
            old(state)@.next_message.min,
            old(state)@.next_message.max,
            r.1@,
        ),
        final(state)@ == swept(old(state)@, lm@, now, r.0@, r.1@).channel,
        texts(final(outbox)@) == texts(old(outbox)@) + swept(
            old(state)@,
            lm@,
            now,
            r.0@,
            r.1@,
        ).sent,
{
    let ghost start = texts(outbox@);
    let ghost picks: Seq<usize> = match script {
        Some(d) => d@.picks,
        None => Seq::empty(),
    };
    let ghost draw: TimeSpan = match script {
        Some(d) => d@.draw,
        None => state.next_message.min,
    };
    assert(start + Seq::<Seq<char>>::empty() =~= start);
    if now.is_past(state.last_advice, state.next_advice) {
        match state.mood {
            Mood::Normal => {
                if !state.dedup_message {
                    let (used, wait) = send_passive(
                        state,
                        outbox,
                        lm,
                        "passive_advice",
                        now,
                        false,
                        script,
                    );
                    return (used, Ghost(wait));
                }
            },
            Mood::Backoff => {
                state.set_mood(Mood::Normal);
                state.next_advice = TimeSpan::from_secs(PASSIVE_ADVICE_SECS);
            },
        }
    }
    (Ghost(picks), Ghost(draw))
}

/// Sweeps one channel, as some picks and some wait drawn from the
/// channel's range give.
pub fn sweep(state: &mut ChannelState, outbox: &mut Vec<String>, lm: &ListsMaps, now: TimePoint)
    ensures
        exists|picks: Seq<usize>, draw: TimeSpan|
            {
                &&& drawn_from(old(state)@.next_message.min, old(state)@.next_message.max, draw)
                &&& final(state)@ == (#[trigger] swept(old(state)@, lm@, now, picks, draw)).channel
                &&& texts(final(outbox)@) == texts(old(outbox)@) + swept(
                    old(state)@,
                    lm@,
                    now,
                    picks,
                    draw,
                ).sent
            },
{
    let (Ghost(picks), Ghost(draw)) = sweep_core(state, outbox, lm, now, None);
    assert(state@ == swept(old(state)@, lm@, now, picks, draw).channel);
}

/// Sweeps one channel with the picks and the wait that `script` lays
/// down: nothing is drawn at random.
pub fn sweep_scripted(
    state: &mut ChannelState,
    outbox: &mut Vec<String>,
    lm: &ListsMaps,
    now: TimePoint,
    script: &Draws,
)
    ensures
        final(state)@ == swept(old(state)@, lm@, now, script@.picks, script@.draw).channel,
        texts(final(outbox)@) == texts(old(outbox)@) + swept(
            old(state)@,
            lm@,
            now,
            script@.picks,
            script@.draw,
        ).sent,
{
    sweep_core(state, outbox, lm, now, Some(script));
}

/// A text that is to be sent to a channel.
#[derive(Debug)]
pub struct Letter {
    /// The key of the channel.
    pub key: u64,
    /// The name of the channel.
    pub channel: String,
    pub text: String,
}

/// A letter, with its texts as character sequences.
pub struct LetterView {
    pub key: u64,
    pub channel: Seq<char>,
    pub text: Seq<char>,
}

impl View for Letter {
    type V = LetterView;

    open spec fn view(&self) -> LetterView {
        LetterView { key: self.key, channel: self.channel@, text: self.text@ }
    }
}

/// The views of a vector of letters.
pub open spec fn letters(v: Seq<Letter>) -> Seq<LetterView> {
    Seq::new(v.len(), |i: int| v[i]@)
}

/// The texts among the letters that go to the channel of the given key, in
/// order.
pub open spec fn texts_to(mail: Seq<LetterView>, key: u64) -> Seq<Seq<char>>
    decreases mail.len(),
{
    if mail.len() == 0 {
        Seq::empty()
    } else if mail.last().key == key {
        texts_to(mail.drop_last(), key).push(mail.last().text)
    } else {
        texts_to(mail.drop_last(), key)
    }
}

/// Whether `post` and `mail` are what the sweep of every channel makes of
/// the session `pre`, `draws` holding what was drawn for each channel:
/// every channel is swept by itself and gets what its sweep sent, no
/// channel comes or goes, and every letter bears the name of its channel.
pub open spec fn swept_all(
    pre: StateView,
    lm: RulesView,
    now: TimePoint,
    draws: Map<u64, Choice>,
    post: StateView,
    mail: Seq<LetterView>,
) -> bool {
    &&& post.ignores == pre.ignores
    &&& post.channels.dom() == pre.channels.dom()
    &&& forall|k: u64| #[trigger]
        pre.channels.contains_key(k) ==> {
            let cs = pre.channels[k];
            let p = swept(cs, lm, now, draws[k].picks, draws[k].draw);
            &&& drawn_from(cs.next_message.min, cs.next_message.max, draws[k].draw)
            &&& post.channels[k] == p.channel
            &&& texts_to(mail, k) == p.sent
        }
    &&& forall|i: int|
        0 <= i < mail.len() ==> pre.channels.contains_key((#[trigger] mail[i]).key)
            && mail[i].channel == pre.channels[mail[i].key].channel_name
}

/// Sweeps the channel of the given key and adds what it sent to the mail.
/// The result holds what was drawn.
fn sweep_key(
    state: &mut State,
    mail: &mut Vec<Letter>,
    key: u64,
    lm: &ListsMaps,
    now: TimePoint,
) -> (choice: Ghost<Choice>)
    requires
        old(state)@.channels.contains_key(key),
    ensures
        final(state)@.ignores == old(state)@.ignores,
        ({
            let cs = old(state)@.channels[key];
            let p = swept(cs, lm@, now, choice@.picks, choice@.draw);
            &&& drawn_from(cs.next_message.min, cs.next_message.max, choice@.draw)
            &&& final(state)@.channels == old(state)@.channels.insert(key, p.channel)
            &&& texts_to(letters(final(mail)@), key) == texts_to(letters(old(mail)@), key) + p.sent
            &&& forall|k: u64|
                k != key ==> texts_to(letters(final(mail)@), k) == texts_to(letters(old(mail)@), k)
            &&& final(mail)@.len() >= old(mail)@.len()
            &&& forall|i: int|
                0 <= i < old(mail)@.len() ==> (#[trigger] letters(final(mail)@)[i]) == letters(
                    old(mail)@,
                )[i]
            &&& forall|i: int|
                old(mail)@.len() <= i < final(mail)@.len() ==> (#[trigger] letters(
                    final(mail)@,
                )[i]).key == key && letters(final(mail)@)[i].channel == cs.channel_name
        }),
{
    let ghost before = state.channels@;
    let ghost mail0 = letters(mail@);
    match state.channels.remove(&key) {
        None => Ghost(Choice { picks: Seq::empty(), draw: TimeSpan { nanos: 0 } }),
        Some(cs) => {
            let mut cs = cs;
            let ghost cs0 = cs@;
            let mut outbox: Vec<String> = Vec::new();
            assert(texts(outbox@) =~= Seq::<Seq<char>>::empty());
            let (Ghost(picks), Ghost(draw)) = sweep_core(&mut cs, &mut outbox, lm, now, None);
            let ghost sent = swept(cs0, lm@, now, picks, draw).sent;
            assert(texts(outbox@) =~= sent);
            let mut j: usize = 0;
            assert(texts_to(mail0, key) + sent.take(0) =~= texts_to(mail0, key));
            while j < outbox.len()
                invariant
                    j <= outbox.len(),
                    texts(outbox@) == sent,
                    cs@.channel_name == cs0.channel_name,
                    mail@.len() == mail0.len() + j,
                    texts_to(letters(mail@), key) == texts_to(mail0, key) + sent.take(j as int),
                    forall|k: u64| k != key ==> texts_to(letters(mail@), k) == texts_to(mail0, k),
                    forall|i: int| 0 <= i < mail0.len() ==> (#[trigger] letters(mail@)[i]) == mail0[i],
                    forall|i: int|
                        mail0.len() <= i < mail@.len() ==> (#[trigger] letters(mail@)[i]).key == key
                            && letters(mail@)[i].channel == cs0.channel_name,
                decreases outbox.len() - j,
            {
                let ghost so_far = letters(mail@);
                let letter = Letter {
                    key,
                    channel: cs.channel_name.clone(),
                    text: outbox[j].clone(),
                };
                mail.push(letter);
                proof {
                    assert(letters(mail@).drop_last() =~= so_far);
                    assert(letters(mail@).last() == letter@);
                    assert(sent.take(j + 1) =~= sent.take(j as int).push(sent[j as int]));
                    assert((texts_to(mail0, key) + sent.take(j as int)).push(sent[j as int])
                        =~= texts_to(mail0, key) + sent.take(j + 1));
                    assert forall|i: int| 0 <= i < mail0.len() implies (#[trigger] letters(
                        mail@,
                    )[i]) == mail0[i] by {
                        assert(letters(mail@)[i] == so_far[i]);
                    }
                    assert forall|i: int| mail0.len() <= i < mail@.len() implies (
                    #[trigger] letters(mail@)[i]).key == key && letters(mail@)[i].channel
                        == cs0.channel_name by {
                        if i < so_far.len() {
                            assert(letters(mail@)[i] == so_far[i]);
                        }
                    }
                }
                j += 1;
            }
            assert(sent.take(outbox@.len() as int) =~= sent);
            state.channels.insert(key, cs);
            assert(state.channels@.map_values(|c: ChannelState| c@) =~= before.map_values(
                |c: ChannelState| c@,
            ).insert(key, cs@));
            Ghost(Choice { picks, draw })
        },
    }
}

/// Sweeps every channel of the session. The first part of the result
/// holds what is to be sent, the second what was drawn.
pub(crate) fn sweep_all_core(state: &mut State, lm: &ListsMaps, now: TimePoint) -> (r: (
    Vec<Letter>,
    Ghost<Map<u64, Choice>>,
))
    ensures
        swept_all(old(state)@, lm@, now, r.1@, final(state)@, letters(r.0@)),
{
    let keys = state.channel_keys();
    let ghost pre = state@;
    let mut mail: Vec<Letter> = Vec::new();
    let ghost mut draws: Map<u64, Choice> = Map::empty();
    let mut i: usize = 0;
    assert(letters(mail@) =~= Seq::<LetterView>::empty());
    while i < keys.len()
        invariant
            i <= keys.len(),
            keys@.no_duplicates(),
            keys@.to_set() == pre.channels.dom(),
            state@.ignores == pre.ignores,
            state@.channels.dom() == pre.channels.dom(),
            forall|k: u64| #[trigger]
                pre.channels.contains_key(k) && keys@.take(i as int).contains(k) ==> {
                    let cs = pre.channels[k];
                    let p = swept(cs, lm@, now, draws[k].picks, draws[k].draw);
                    &&& drawn_from(cs.next_message.min, cs.next_message.max, draws[k].draw)
                    &&& state@.channels[k] == p.channel
                    &&& texts_to(letters(mail@), k) == p.sent
                },
            forall|k: u64| #[trigger]
                pre.channels.contains_key(k) && !keys@.take(i as int).contains(k) ==> {
                    &&& state@.channels[k] == pre.channels[k]
                    &&& texts_to(letters(mail@), k) == Seq::<Seq<char>>::empty()
                },
            forall|j: int|
                0 <= j < mail@.len() ==> pre.channels.contains_key((#[trigger] letters(mail@)[j]).key)
                    && letters(mail@)[j].channel == pre.channels[letters(mail@)[j].key].channel_name,
        decreases keys.len() - i,
    {
        let key = keys[i];
        let ghost done = keys@.take(i as int);
        let ghost mid = state@;
        let ghost mail0 = letters(mail@);
        proof {
            assert(keys@.to_set().contains(key)) by {
                assert(keys@[i as int] == key);
            }
            assert(!done.contains(key)) by {
                if done.contains(key) {
                    let j = choose|j: int| 0 <= j < done.len() && done[j] == key;
                    assert(keys@[j] == keys@[i as int]);
                }
            }
            assert(keys@.take(i + 1) =~= done.push(key));
            assert forall|k: u64| keys@.take(i + 1).contains(k) <==> (done.contains(k) || k
                == key) by {
                if done.push(key).contains(k) {
                    let j = choose|j: int| 0 <= j < done.push(key).len() && done.push(key)[j] == k;
                    if j < done.len() {
                        assert(done[j] == k);
                    }
                }
                if done.contains(k) {
                    let j = choose|j: int| 0 <= j < done.len() && done[j] == k;
                    assert(done.push(key)[j] == k);
                }
                if k == key {
                    assert(done.push(key)[done.len() as int] == k);
                }
            }
        }
        let Ghost(choice) = sweep_key(state, &mut mail, key, lm, now);
        proof {
            draws = draws.insert(key, choice);
            assert(state@.channels.dom() =~= pre.channels.dom());
            assert forall|j: int| 0 <= j < mail@.len() implies pre.channels.contains_key(
                (#[trigger] letters(mail@)[j]).key,
            ) && letters(mail@)[j].channel == pre.channels[letters(
                mail@,
            )[j].key].channel_name by {
                if j < mail0.len() {
                    assert(letters(mail@)[j] == mail0[j]);
                }
            }
            assert forall|k: u64| #[trigger]
                pre.channels.contains_key(k) && keys@.take(i + 1).contains(k) implies ({
                let cs = pre.channels[k];
                let p = swept(cs, lm@, now, draws[k].picks, draws[k].draw);
                &&& drawn_from(cs.next_message.min, cs.next_message.max, draws[k].draw)
                &&& state@.channels[k] == p.channel
                &&& texts_to(letters(mail@), k) == p.sent
            }) by {
                if k == key {
                    assert(mid.channels[key] == pre.channels[key]);
                    assert(texts_to(mail0, key) + swept(
                        pre.channels[key],
                        lm@,
                        now,
                        choice.picks,
                        choice.draw,
                    ).sent =~= swept(pre.channels[key], lm@, now, choice.picks, choice.draw).sent);
                } else {
                    assert(done.contains(k));
                }
            }
            assert forall|k: u64| #[trigger]
                pre.channels.contains_key(k) && !keys@.take(i + 1).contains(k) implies ({
                &&& state@.channels[k] == pre.channels[k]
                &&& texts_to(letters(mail@), k) == Seq::<Seq<char>>::empty()
            }) by {
                assert(!done.contains(k));
                assert(k != key);
            }
        }
        i += 1;
    }
    proof {
        assert(keys@.take(keys@.len() as int) =~= keys@);
        assert forall|k: u64| #[trigger] pre.channels.contains_key(k) implies keys@.contains(k) by {
            assert(keys@.to_set().contains(k));
        }
        assert(swept_all(pre, lm@, now, draws, state@, letters(mail@)));
    }
    (mail, Ghost(draws))
}

/// Sweeps every channel of the session, each as `sweep` does. The result
/// holds what is to be sent. What happens is what some draws give, each
/// wait drawn from the range of its channel.
pub fn sweep_all(state: &mut State, lm: &ListsMaps, now: TimePoint) -> (mail: Vec<Letter>)
    ensures
        exists|draws: Map<u64, Choice>| #[trigger]
            swept_all(old(state)@, lm@, now, draws, final(state)@, letters(mail@)),
{
    let (mail, _) = sweep_all_core(state, lm, now);
    mail
}

} // verus!
