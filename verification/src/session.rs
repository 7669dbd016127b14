//! One round of a session: an event is dealt with, and then every channel
//! is swept. The caller waits for the events and sends the letters.

use vstd::prelude::*;
use vstd::string::*;
use crate::clock::TimePoint;
use crate::dispatch::{
    after_event, event_lower, fitting, handle_core, known_event, lemma_dispatch_keeps, lower_of,
    plain_channel, strip_channel, Dice, DispatchError, Event,
};
use crate::passive::{letters, sweep_all_core, swept_all, Letter, LetterView};
use crate::rules::{ListsMaps, RulesView};
use crate::split::texts;
use crate::state::{channel_key, State, StateView};
use crate::triggers::Choice;

verus! {

/// The letters that carry what an event made the bot say: the texts in
/// order, each to the channel of the event.
pub open spec fn addressed(state: StateView, event: Event, sent: Seq<Seq<char>>) -> Seq<
    LetterView,
> {
    match event {
        Event::ChatLine { channel, user, text } => {
            let key = channel_key(plain_channel(channel@));
            Seq::new(
                sent.len(),
                |i: int|
                    LetterView { key, channel: state.channels[key].channel_name, text: sent[i] },
            )
        },
        Event::Other => Seq::empty(),
    }
}

/// Whether `post` and `mail` are what one round makes of the session
/// `pre`: the event is dealt with as the dice give, which fit it; then
/// every channel is swept as the draws give. The letters of the event come
/// first, then those of the sweep.
pub open spec fn round_gives(
    pre: StateView,
    lm: RulesView,
    event: Event,
    lower: Seq<char>,
    now: TimePoint,
    dice: Dice,
    draws: Map<u64, Choice>,
    post: StateView,
    mail: Seq<LetterView>,
) -> bool {
    let o = after_event(pre, lm, event, lower, now, dice);
    let first = addressed(o.state, event, o.sent);
    &&& fitting(pre, event, lower, dice)
    &&& mail.len() >= first.len()
    &&& mail.take(first.len() as int) == first
    &&& swept_all(o.state, lm, now, draws, post, mail.skip(first.len() as int))
}

/// One round, a line of chat coming with its lower-case form `lower`. An
/// event that the session cannot deal with is refused, and nothing
/// changes. After any other event the result holds what is to be sent.
pub fn round_with(
    state: &mut State,
    lm: &ListsMaps,
    event: &Event,
    lower: &str,
    now: TimePoint,
) -> (r: Result<Vec<Letter>, DispatchError>)
    ensures
        r is Ok <==> known_event(old(state)@, *event),
        r is Err ==> final(state)@ == old(state)@,
        r is Ok ==> exists|dice: Dice, draws: Map<u64, Choice>| #[trigger]
            round_gives(
                old(state)@,
                lm@,
                *event,
                lower@,
                now,
                dice,
                draws,
                final(state)@,
                letters(r->Ok_0@),
            ),
{
    let mut outbox: Vec<String> = Vec::new();
    assert(texts(outbox@) =~= Seq::<Seq<char>>::empty());
    let (r, Ghost(dice)) = handle_core(state, &mut outbox, lm, event, lower, now);
    match r {
        Err(e) => Err(e),
        Ok(()) => {
            let ghost o = after_event(old(state)@, lm@, *event, lower@, now, dice);
            assert(texts(outbox@) =~= o.sent);
            let ghost first = addressed(o.state, *event, o.sent);
            let mut mail: Vec<Letter> = Vec::new();
            match event {
                Event::ChatLine { channel, user, text } => {
                    let name = strip_channel(channel.as_str());
                    let key = State::chash(name.as_str());
                    proof {
                        lemma_dispatch_keeps(
                            old(state)@,
                            lm@,
                            name@,
                            user@,
                            text@,
                            lower@,
                            now,
                            dice,
                        );
                        assert(o.state.channels.dom().contains(key));
                        assert(state@.channels.contains_key(key));
                        assert(state.channels@.contains_key(key));
                    }
                    match state.channels.get(&key) {
                        Some(cs) => {
                            let mut j: usize = 0;
                            assert(letters(mail@) =~= first.take(0));
                            assert(cs@ == o.state.channels[key]);
                            while j < outbox.len()
                                invariant
                                    j <= outbox.len(),
                                    texts(outbox@) == o.sent,
                                    first.len() == o.sent.len(),
                                    forall|i: int|
                                        0 <= i < first.len() ==> #[trigger] first[i] == (
                                        LetterView {
                                            key,
                                            channel: cs@.channel_name,
                                            text: o.sent[i],
                                        }),
                                    letters(mail@) == first.take(j as int),
                                decreases outbox.len() - j,
                            {
                                let ghost before = letters(mail@);
                                let letter = Letter {
                                    key,
                                    channel: cs.channel_name.clone(),
                                    text: outbox[j].clone(),
                                };
                                mail.push(letter);
                                assert(letters(mail@) =~= before.push(letter@));
                                assert(first.take(j + 1) =~= first.take(j as int).push(
                                    first[j as int],
                                ));
                                j += 1;
                            }
                            assert(first.take(outbox@.len() as int) =~= first);
                        },
                        None => {},
                    }
                },
                Event::Other => {
                    assert(letters(mail@) =~= first);
                },
            }
            assert(letters(mail@) == first);
            let (swept, Ghost(draws)) = sweep_all_core(state, lm, now);
            let ghost tail = letters(swept@);
            let mut swept = swept;
            mail.append(&mut swept);
            proof {
                assert(letters(mail@) =~= first + tail);
                assert((first + tail).take(first.len() as int) =~= first);
                assert((first + tail).skip(first.len() as int) =~= tail);
            }
            let result: Result<Vec<Letter>, DispatchError> = Ok(mail);
            assert(round_gives(
                old(state)@,
                lm@,
                *event,
                lower@,
                now,
                dice,
                draws,
                state@,
                letters(result->Ok_0@),
            ));
            result
        },
    }
}

/// One round at `now`: the event is dealt with, a line of chat being
/// brought to lower case first, and then every channel is swept.
pub fn round(state: &mut State, lm: &ListsMaps, event: &Event, now: TimePoint) -> (r: Result<
    Vec<Letter>,
    DispatchError,
>)
    ensures
        r is Ok <==> known_event(old(state)@, *event),
        r is Err ==> final(state)@ == old(state)@,
        r is Ok ==> exists|dice: Dice, draws: Map<u64, Choice>| #[trigger]
            round_gives(
                old(state)@,
                lm@,
                *event,
                event_lower(*event),
                now,
                dice,
                draws,
                final(state)@,
                letters(r->Ok_0@),
            ),
{
    let lower = lower_of(event);
    round_with(state, lm, event, lower.as_str(), now)
}

} // verus!
