//! The state of one channel, and the throttle that decides whether the
//! bot may speak there.

use vstd::prelude::*;
use vstd::string::*;
use crate::clock::{MinMax, TimePoint, TimeSpan};
use crate::random::{draw_span, drawn_from};
use crate::split::texts;

verus! {

/// Seconds between two passive messages in a channel of normal mood.
pub const PASSIVE_ADVICE_SECS: u64 = 10_800;

/// Seconds that a channel stays in backoff.
pub const BACKOFF_ADVICE_SECS: u64 = 86_400;

/// The least number of seconds between two throttled messages, as a
/// channel starts out.
pub const PASSIVE_MESSAGE_MIN_SECS: u64 = 1_200;

/// The bound on the seconds between two throttled messages, as a channel
/// starts out.
pub const PASSIVE_MESSAGE_MAX_SECS: u64 = 1_800;

/// How the bot behaves in a channel.
#[derive(Clone, Copy, Debug, PartialEq, Eq, Structural)]
pub enum Mood {
    /// It answers triggers and speaks by itself.
    Normal,
    /// It was told to leave and keeps quiet.
    Backoff,
}

impl Mood {
    /// The name of the mood.
    pub open spec fn name(self) -> Seq<char> {
        match self {
            Mood::Normal => "normal"@,
            Mood::Backoff => "agitated"@,
        }
    }

    /// The name of the mood.
    pub fn to_string(&self) -> (r: String)
        ensures
            r@ == self.name(),
    {
        match self {
            Mood::Normal => "normal".to_owned(),
            Mood::Backoff => "agitated".to_owned(),
        }
    }
}

/// The state of one channel.
#[derive(Debug)]
pub struct ChannelState {
    pub channel_name: String,
    /// A message went out since the last incoming line was done with.
    pub dedup_message: bool,
    /// The next throttled message goes out whatever the clock says.
    pub direct_message: bool,
    pub last_advice: TimePoint,
    pub last_message: TimePoint,
    pub mood: Mood,
    /// How long after `last_advice` the next passive message is due.
    pub next_advice: TimeSpan,
    /// The range from which the wait after `last_message` is drawn.
    pub next_message: MinMax<TimeSpan>,
    /// When the channel went off topic, while it is.
    pub off_topic: Option<TimePoint>,
    pub current_topic: Option<String>,
    pub total_off_topic: TimeSpan,
}

/// The state of one channel, with its texts as character sequences.
pub struct ChannelView {
    pub channel_name: Seq<char>,
    pub dedup_message: bool,
    pub direct_message: bool,
    pub last_advice: TimePoint,
    pub last_message: TimePoint,
    pub mood: Mood,
    pub next_advice: TimeSpan,
    pub next_message: MinMax<TimeSpan>,
    pub off_topic: Option<TimePoint>,
    pub current_topic: Option<Seq<char>>,
    pub total_off_topic: TimeSpan,
}

impl View for ChannelState {
    type V = ChannelView;

    open spec fn view(&self) -> ChannelView {
        ChannelView {
            channel_name: self.channel_name@,
            dedup_message: self.dedup_message,
            direct_message: self.direct_message,
            last_advice: self.last_advice,
            last_message: self.last_message,
            mood: self.mood,
            next_advice: self.next_advice,
            next_message: self.next_message,
            off_topic: self.off_topic,
            current_topic: match self.current_topic {
                Some(topic) => Some(topic@),
                None => None,
            },
            total_off_topic: self.total_off_topic,
        }
    }
}

impl ChannelView {
    /// The state of a channel that is seen for the first time at `now`.
    pub open spec fn fresh(channel_name: Seq<char>, now: TimePoint) -> ChannelView {
        ChannelView {
            channel_name,
            dedup_message: false,
            direct_message: false,
            last_advice: now,
            last_message: now,
            mood: Mood::Normal,
            next_advice: TimeSpan::of_secs(PASSIVE_ADVICE_SECS as int),
            next_message: MinMax {
                min: TimeSpan::of_secs(PASSIVE_MESSAGE_MIN_SECS as int),
                max: TimeSpan::of_secs(PASSIVE_MESSAGE_MAX_SECS as int),
            },
            off_topic: None,
            current_topic: None,
            total_off_topic: TimeSpan { nanos: 0 },
        }
    }

    /// The state after a message went out at `now`: both clocks start
    /// anew, the message is marked as sent, and the override is used up.
    pub open spec fn spoken(self, now: TimePoint) -> ChannelView {
        ChannelView {
            dedup_message: true,
            last_advice: now,
            last_message: now,
            direct_message: false,
            ..self
        }
    }

    /// Whether a throttled message goes out at `now`, the wait drawn being
    /// `draw`: the override is set, or more than `draw` has passed since
    /// the last message.
    pub open spec fn may_speak(self, now: TimePoint, draw: TimeSpan) -> bool {
        self.direct_message || now.past(self.last_message, draw)
    }

    /// The state after the attempt to send a throttled message.
    pub open spec fn attempted(self, now: TimePoint, draw: TimeSpan) -> ChannelView {
        if self.may_speak(now, draw) {
            self.spoken(now)
        } else {
            self
        }
    }
}

impl ChannelState {
    /// The state of a channel that is seen for the first time at `now`.
    pub fn new(channel_name: &str, now: TimePoint) -> (r: ChannelState)
        ensures
            r@ == ChannelView::fresh(channel_name@, now),
    {
        ChannelState {
            direct_message: false,
            channel_name: channel_name.to_owned(),
            dedup_message: false,
            last_advice: now,
            last_message: now,
            mood: Mood::Normal,
            next_advice: TimeSpan::from_secs(PASSIVE_ADVICE_SECS),
            next_message: MinMax::new(
                TimeSpan::from_secs(PASSIVE_MESSAGE_MIN_SECS),
                TimeSpan::from_secs(PASSIVE_MESSAGE_MAX_SECS),
            ),
            off_topic: None,
            current_topic: None,
            total_off_topic: TimeSpan { nanos: 0 },
        }
    }

    /// A copy of the state.
    pub fn duplicate(&self) -> (r: ChannelState)
        ensures
            r@ == self@,
    {
        ChannelState {
            channel_name: self.channel_name.clone(),
            dedup_message: self.dedup_message,
            direct_message: self.direct_message,
            last_advice: self.last_advice,
            last_message: self.last_message,
            mood: self.mood,
            next_advice: self.next_advice,
            next_message: MinMax { min: self.next_message.min, max: self.next_message.max },
            off_topic: self.off_topic,
            current_topic: match &self.current_topic {
                Some(topic) => Some(topic.clone()),
                None => None,
            },
            total_off_topic: self.total_off_topic,
        }
    }

    /// Sets the mood.
    pub fn set_mood(&mut self, mood: Mood)
        ensures
            final(self)@ == (ChannelView { mood, ..old(self)@ }),
    {
        self.mood = mood;
    }

    /// Sends `msg` whatever the throttle says: the message joins the
    /// outbox, and the state is that of a channel that has just spoken.
    pub fn force_send_message(&mut self, outbox: &mut Vec<String>, msg: &str, now: TimePoint)
        ensures
            texts(final(outbox)@) == texts(old(outbox)@).push(msg@),
            final(self)@ == old(self)@.spoken(now),
    {
        let ghost before = texts(outbox@);
        outbox.push(msg.to_owned());
        assert(texts(outbox@) =~= before.push(msg@));
        self.dedup_message = true;
        self.last_advice = now;
        self.last_message = now;
        self.direct_message = false;
    }

    /// Sends `msg` if the throttle lets it pass, the wait drawn for this
    /// attempt being `draw`. A message that does not pass leaves outbox and
    /// state as they were.
    pub fn send_message_with(
        &mut self,
        outbox: &mut Vec<String>,
        msg: &str,
        now: TimePoint,
        draw: TimeSpan,
    ) -> (sent: bool)
        ensures
            sent == old(self)@.may_speak(now, draw),
            final(self)@ == old(self)@.attempted(now, draw),
            texts(final(outbox)@) == if sent {
                texts(old(outbox)@).push(msg@)
            } else {
                texts(old(outbox)@)
            },
    {
        if self.direct_message || now.is_past(self.last_message, draw) {
            self.force_send_message(outbox, msg, now);
            true
        } else {
            false
        }
    }

    /// Sends `msg` if the throttle lets it pass. The wait is drawn anew
    /// from the channel's range for each attempt. Before the range begins
    /// nothing is sent and nothing changes, unless the override is set;
    /// once the whole range has passed the message is sent.
    pub fn send_message(&mut self, outbox: &mut Vec<String>, msg: &str, now: TimePoint) -> (sent:
        bool)
        ensures
            exists|draw: TimeSpan|
                {
                    &&& drawn_from(old(self)@.next_message.min, old(self)@.next_message.max, draw)
                    &&& sent == #[trigger] old(self)@.may_speak(now, draw)
                    &&& final(self)@ == old(self)@.attempted(now, draw)
                },
            texts(final(outbox)@) == if sent {
                texts(old(outbox)@).push(msg@)
            } else {
                texts(old(outbox)@)
            },
            !old(self)@.direct_message && now.nanos <= old(self)@.last_message.nanos + old(
                self,
            )@.next_message.min.nanos ==> !sent && final(self)@ == old(self)@,
            old(self)@.next_message.min.nanos < old(self)@.next_message.max.nanos && old(
                self,
            )@.last_message.nanos + old(self)@.next_message.max.nanos <= now.nanos ==> sent,
    {
        let draw = draw_span(self.next_message.min, self.next_message.max);
        let sent = self.send_message_with(outbox, msg, now, draw);
        assert(sent == old(self)@.may_speak(now, draw));
        sent
    }
}

/// A throttled message goes out once the whole range has passed since the
/// last one, and none goes out before the range begins, unless the
/// override is set.
pub proof fn lemma_throttle(cs: ChannelView, now: TimePoint, draw: TimeSpan)
    requires
        drawn_from(cs.next_message.min, cs.next_message.max, draw),
    ensures
        cs.next_message.min.nanos < cs.next_message.max.nanos && cs.last_message.nanos
            + cs.next_message.max.nanos <= now.nanos ==> cs.may_speak(now, draw),
        !cs.direct_message && now.nanos <= cs.last_message.nanos + cs.next_message.min.nanos
            ==> !cs.may_speak(now, draw) && cs.attempted(now, draw) == cs,
{
}

} // verus!
