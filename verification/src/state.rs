//! The session state: the state of every channel, found by a key that is
//! computed from the channel's name, and the users that asked to be
//! ignored.

use vstd::prelude::*;
use vstd::string::*;
use std::collections::hash_map::DefaultHasher;
use std::collections::HashMap;
use std::hash::Hasher;
use vstd::std_specs::hash::DefaultHasherAdditionalSpecFns;
use vstd::std_specs::iter::IteratorSpec;
use crate::channel::{ChannelState, ChannelView, Mood};
use crate::clock::TimePoint;
use crate::split::{holds, texts};
use crate::text::same_text;

verus! {

/// The key under which the state of a channel is kept: the hash that the
/// default hasher gives to the name's UTF-8 bytes, followed by one byte
/// 255.
pub open spec fn channel_key(name: Seq<char>) -> u64 {
    DefaultHasher::spec_finish(seq![vstd::utf8::encode_utf8(name), seq![255u8]])
}

/// The state of a session.
#[derive(Debug)]
pub struct State {
    pub channels: HashMap<u64, ChannelState>,
    /// The ignored users.
    pub ignores: Vec<String>,
}

/// The state of a session, with its texts as character sequences.
pub struct StateView {
    pub channels: Map<u64, ChannelView>,
    pub ignores: Set<Seq<char>>,
}

impl View for State {
    type V = StateView;

    open spec fn view(&self) -> StateView {
        StateView {
            channels: self.channels@.map_values(|c: ChannelState| c@),
            ignores: texts(self.ignores@).to_set(),
        }
    }
}

/// The channels of a session that starts at `now` with the given names.
/// Of two names with one key the later one stays.
pub open spec fn fresh_channels(names: Seq<Seq<char>>, now: TimePoint) -> Map<u64, ChannelView>
    decreases names.len(),
{
    if names.len() == 0 {
        Map::empty()
    } else {
        fresh_channels(names.drop_last(), now).insert(
            channel_key(names.last()),
            ChannelView::fresh(names.last(), now),
        )
    }
}

/// The channels `m` together with a fresh state, as of `now`, for each of
/// the names whose key has no state yet.
pub open spec fn merged_channels(
    m: Map<u64, ChannelView>,
    names: Seq<Seq<char>>,
    now: TimePoint,
) -> Map<u64, ChannelView>
    decreases names.len(),
{
    if names.len() == 0 {
        m
    } else {
        let prev = merged_channels(m, names.drop_last(), now);
        let key = channel_key(names.last());
        if prev.contains_key(key) {
            prev
        } else {
            prev.insert(key, ChannelView::fresh(names.last(), now))
        }
    }
}

/// Merging keeps every channel that was there, with its state, and adds
/// the keys of the given names and no others.
pub proof fn lemma_merged_channels(m: Map<u64, ChannelView>, names: Seq<Seq<char>>, now: TimePoint)
    ensures
        forall|k: u64| #[trigger]
            m.contains_key(k) ==> merged_channels(m, names, now).contains_key(k) && merged_channels(
                m,
                names,
                now,
            )[k] == m[k],
        forall|i: int|
            0 <= i < names.len() ==> merged_channels(m, names, now).contains_key(
                #[trigger] channel_key(names[i]),
            ),
        forall|k: u64| #[trigger]
            merged_channels(m, names, now).contains_key(k) ==> m.contains_key(k) || exists|i: int|
                0 <= i < names.len() && channel_key(names[i]) == k,
    decreases names.len(),
{
    if names.len() > 0 {
        let rest = names.drop_last();
        lemma_merged_channels(m, rest, now);
        assert forall|i: int| 0 <= i < names.len() implies merged_channels(
            m,
            names,
            now,
        ).contains_key(#[trigger] channel_key(names[i])) by {
            if i < rest.len() {
                assert(rest[i] == names[i]);
            }
        }
        assert forall|k: u64| #[trigger]
            merged_channels(m, names, now).contains_key(k) implies m.contains_key(k) || exists|
            i: int,
        |
            0 <= i < names.len() && channel_key(names[i]) == k by {
            if merged_channels(m, rest, now).contains_key(k) {
                if !m.contains_key(k) {
                    let i = choose|i: int| 0 <= i < rest.len() && channel_key(rest[i]) == k;
                    assert(rest[i] == names[i]);
                }
            } else {
                assert(channel_key(names[names.len() - 1]) == k);
            }
        }
    }
}

/// A restored session that holds every configured channel comes back as
/// it was saved.
pub proof fn lemma_merge_same_channels(
    m: Map<u64, ChannelView>,
    names: Seq<Seq<char>>,
    now: TimePoint,
)
    requires
        forall|i: int| 0 <= i < names.len() ==> m.contains_key(#[trigger] channel_key(names[i])),
    ensures
        merged_channels(m, names, now) == m,
    decreases names.len(),
{
    if names.len() > 0 {
        let rest = names.drop_last();
        assert forall|i: int| 0 <= i < rest.len() implies m.contains_key(
            #[trigger] channel_key(rest[i]),
        ) by {
            assert(rest[i] == names[i]);
        }
        lemma_merge_same_channels(m, rest, now);
        assert(m.contains_key(channel_key(names[names.len() - 1])));
    }
}

/// A session that was made anew from the configured channels holds each of
/// them.
pub proof fn lemma_fresh_channels(names: Seq<Seq<char>>, now: TimePoint)
    ensures
        forall|i: int|
            0 <= i < names.len() ==> fresh_channels(names, now).contains_key(
                #[trigger] channel_key(names[i]),
            ),
    decreases names.len(),
{
    if names.len() > 0 {
        let rest = names.drop_last();
        lemma_fresh_channels(rest, now);
        assert forall|i: int| 0 <= i < names.len() implies fresh_channels(names, now).contains_key(
            #[trigger] channel_key(names[i]),
        ) by {
            if i < rest.len() {
                assert(rest[i] == names[i]);
            }
        }
    }
}

impl State {
    /// The key of a channel.
    pub fn chash(channel_name: &str) -> (h: u64)
        ensures
            h == channel_key(channel_name@),
    {
        let mut s = DefaultHasher::new();
        s.write(channel_name.as_bytes());
        let tail: [u8; 1] = [255u8];
        s.write(tail.as_slice());
        assert(tail@ =~= seq![255u8]);
        assert(s@ =~= seq![vstd::utf8::encode_utf8(channel_name@), seq![255u8]]);
        s.finish()
    }

    /// The state of a session that starts at `now` in the given channels,
    /// with nobody ignored.
    pub fn new(channels: &Vec<String>, now: TimePoint) -> (r: State)
        ensures
            r@.channels == fresh_channels(texts(channels@), now),
            r@.ignores == Set::<Seq<char>>::empty(),
    {
        let mut map: HashMap<u64, ChannelState> = HashMap::new();
        let mut i: usize = 0;
        assert(texts(channels@).take(0) =~= Seq::<Seq<char>>::empty());
        assert(map@.map_values(|c: ChannelState| c@) =~= Map::<u64, ChannelView>::empty());
        while i < channels.len()
            invariant
                i <= channels.len(),
                map@.map_values(|c: ChannelState| c@) == fresh_channels(
                    texts(channels@).take(i as int),
                    now,
                ),
            decreases channels.len() - i,
        {
            let name = channels[i].as_str();
            let ghost before = map@;
            proof {
                assert(texts(channels@).take(i + 1).drop_last() =~= texts(channels@).take(i as int));
                assert(texts(channels@).take(i + 1).last() == name@);
            }
            let cs = ChannelState::new(name, now);
            let key = State::chash(name);
            map.insert(key, cs);
            assert(map@.map_values(|c: ChannelState| c@) =~= before.map_values(
                |c: ChannelState| c@,
            ).insert(key, cs@));
            i += 1;
        }
        assert(texts(channels@).take(channels@.len() as int) =~= texts(channels@));
        let r = State { channels: map, ignores: Vec::new() };
        assert(r@.ignores =~= Set::<Seq<char>>::empty());
        r
    }

    /// The restored `state`, with a fresh state as of `now` for each of the
    /// given channels that it does not hold. Nothing that it holds is
    /// changed or dropped.
    pub fn merge(channels: &Vec<String>, state: State, now: TimePoint) -> (r: State)
        ensures
            r@.channels == merged_channels(state@.channels, texts(channels@), now),
            r@.ignores == state@.ignores,
    {
        let mut state = state;
        let ghost start = state@;
        let mut i: usize = 0;
        assert(texts(channels@).take(0) =~= Seq::<Seq<char>>::empty());
        while i < channels.len()
            invariant
                i <= channels.len(),
                state@.ignores == start.ignores,
                state@.channels == merged_channels(
                    start.channels,
                    texts(channels@).take(i as int),
                    now,
                ),
            decreases channels.len() - i,
        {
            let name = channels[i].as_str();
            let ghost before = state.channels@;
            proof {
                assert(texts(channels@).take(i + 1).drop_last() =~= texts(channels@).take(i as int));
                assert(texts(channels@).take(i + 1).last() == name@);
            }
            let key = State::chash(name);
            if !state.channels.contains_key(&key) {
                let cs = ChannelState::new(name, now);
                state.channels.insert(key, cs);
                assert(state.channels@.map_values(|c: ChannelState| c@) =~= before.map_values(
                    |c: ChannelState| c@,
                ).insert(key, cs@));
            }
            i += 1;
        }
        assert(texts(channels@).take(channels@.len() as int) =~= texts(channels@));
        state
    }

    /// Sets the mood of a channel, if the session holds it.
    pub fn set_mood(&mut self, channel: &str, mood: Mood)
        ensures
            final(self)@.ignores == old(self)@.ignores,
            final(self)@.channels == if old(self)@.channels.contains_key(channel_key(channel@)) {
                old(self)@.channels.insert(
                    channel_key(channel@),
                    ChannelView { mood, ..old(self)@.channels[channel_key(channel@)] },
                )
            } else {
                old(self)@.channels
            },
    {
        let key = State::chash(channel);
        let ghost before = self.channels@;
        match self.channels.remove(&key) {
            Some(cs) => {
                let mut cs = cs;
                cs.set_mood(mood);
                self.channels.insert(key, cs);
                assert(self.channels@.map_values(|c: ChannelState| c@) =~= before.map_values(
                    |c: ChannelState| c@,
                ).insert(key, cs@));
            },
            None => {
                assert(self.channels@ =~= before);
            },
        }
    }

    /// The keys of the channels, each once, in no order that could be told
    /// beforehand.
    pub fn channel_keys(&self) -> (keys: Vec<u64>)
        ensures
            keys@.no_duplicates(),
            keys@.to_set() == self@.channels.dom(),
    {
        let mut keys: Vec<u64> = Vec::new();
        let ghost all = self.channels.keys().remaining();
        for k in it: self.channels.keys()
            invariant
                it.seq() == all,
                keys@ == all.unref().take(it.index() as int),
        {
            keys.push(*k);
        }
        assert(keys@ =~= all.unref());
        assert(keys@.no_duplicates()) by {
            assert forall|i: int, j: int|
                0 <= i < keys@.len() && 0 <= j < keys@.len() && i != j implies keys@[i]
                != keys@[j] by {
                assert(all[i] != all[j]);
            }
        }
        assert(self@.channels.dom() =~= self.channels@.dom());
        keys
    }

    /// Whether `user` is ignored.
    pub fn is_ignored(&self, user: &str) -> (b: bool)
        ensures
            b == self@.ignores.contains(user@),
    {
        ignored(&self.ignores, user)
    }

    /// Begins to ignore `user`.
    pub fn ignore(&mut self, user: &str)
        ensures
            final(self)@.ignores == old(self)@.ignores.insert(user@),
            final(self)@.channels == old(self)@.channels,
    {
        add_ignore(&mut self.ignores, user);
    }

    /// Ceases to ignore `user`.
    pub fn notice(&mut self, user: &str)
        ensures
            final(self)@.ignores == old(self)@.ignores.remove(user@),
            final(self)@.channels == old(self)@.channels,
    {
        remove_ignore(&mut self.ignores, user);
    }
}

/// Whether `user` is among the names.
pub fn ignored(names: &Vec<String>, user: &str) -> (b: bool)
    ensures
        b == texts(names@).to_set().contains(user@),
{
    holds(names, user)
}

/// Adds `user` to the names, unless it is among them.
pub fn add_ignore(names: &mut Vec<String>, user: &str)
    ensures
        texts(final(names)@).to_set() == texts(old(names)@).to_set().insert(user@),
{
    let ghost before = texts(names@);
    if !ignored(names, user) {
        names.push(user.to_owned());
        assert(texts(names@) =~= before.push(user@));
        assert forall|s: Seq<char>| before.push(user@).contains(s) <==> (before.contains(s) || s
            == user@) by {
            if before.push(user@).contains(s) {
                let k = choose|k: int| 0 <= k < before.push(user@).len() && before.push(user@)[k]
                    == s;
                if k < before.len() {
                    assert(before[k] == s);
                }
            }
            if before.contains(s) {
                let k = choose|k: int| 0 <= k < before.len() && before[k] == s;
                assert(before.push(user@)[k] == s);
            }
            if s == user@ {
                assert(before.push(user@)[before.len() as int] == s);
            }
        }
        assert(texts(names@).to_set() =~= before.to_set().insert(user@));
    } else {
        assert(before.to_set().insert(user@) =~= before.to_set());
    }
}

/// Takes `user` out of the names.
pub fn remove_ignore(names: &mut Vec<String>, user: &str)
    ensures
        texts(final(names)@).to_set() == texts(old(names)@).to_set().remove(user@),
{
    let ghost before = texts(names@);
    let mut kept: Vec<String> = Vec::new();
    let mut i: usize = 0;
    while i < names.len()
        invariant
            i <= names.len(),
            before == texts(names@),
            forall|s: Seq<char>|
                texts(kept@).contains(s) <==> (s != user@ && before.take(i as int).contains(s)),
        decreases names.len() - i,
    {
        let ghost old_kept = texts(kept@);
        let ghost name = names@[i as int]@;
        assert(before.take(i + 1) =~= before.take(i as int).push(name));
        if !same_text(names[i].as_str(), user) {
            kept.push(names[i].clone());
            assert(texts(kept@) =~= old_kept.push(name));
            assert forall|s: Seq<char>| texts(kept@).contains(s) <==> (s != user@ && before.take(
                i + 1,
            ).contains(s)) by {
                lemma_push_contains(old_kept, name, s);
                lemma_push_contains(before.take(i as int), name, s);
            }
        } else {
            assert forall|s: Seq<char>| texts(kept@).contains(s) <==> (s != user@ && before.take(
                i + 1,
            ).contains(s)) by {
                lemma_push_contains(before.take(i as int), name, s);
            }
        }
        i += 1;
    }
    assert(before.take(names@.len() as int) =~= before);
    assert(texts(kept@).to_set() =~= before.to_set().remove(user@));
    *names = kept;
}

proof fn lemma_push_contains(s: Seq<Seq<char>>, x: Seq<char>, y: Seq<char>)
    ensures
        s.push(x).contains(y) <==> (s.contains(y) || x == y),
{
    if s.push(x).contains(y) {
        let k = choose|k: int| 0 <= k < s.push(x).len() && s.push(x)[k] == y;
        if k < s.len() {
            assert(s[k] == y);
        }
    }
    if s.contains(y) {
        let k = choose|k: int| 0 <= k < s.len() && s[k] == y;
        assert(s.push(x)[k] == y);
    }
    if x == y {
        assert(s.push(x)[s.len() as int] == y);
    }
}

} // verus!
