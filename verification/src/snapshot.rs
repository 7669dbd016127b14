//! When the session state is saved, and how a saved state comes back.
//! Reading and writing the files is left to the caller.

use vstd::prelude::*;
use vstd::string::*;
use crate::clock::{TimePoint, TimeSpan};
use crate::number::{decimal, format_u64};
use crate::random::random_u32;
use crate::split::texts;
use crate::state::{fresh_channels, merged_channels, State};
use crate::text::{extend, from_chars, matches_at, to_chars};

verus! {

/// Seconds between two saves.
pub const STATE_SAVE_SECS: u64 = 60;

/// The state of the persistence manager.
#[derive(Debug)]
pub struct MetaState {
    /// No save is made before this time has passed.
    pub next_state_save: TimePoint,
}

/// The name of a temporary file that holds a state until it takes the
/// place of the snapshot.
pub open spec fn temp_name(n: u32) -> Seq<char> {
    decimal(n as nat) + "-state.json.temp"@
}

/// Whether a file name has the extension `temp`: it ends in `.temp`, and
/// something stands before that.
pub open spec fn is_temp_name(name: Seq<char>) -> bool {
    name.len() >= 6 && name.subrange(name.len() - 5, name.len() as int) == ".temp"@
}

impl MetaState {
    /// The state of a manager that starts at `now`: the first save is due
    /// when the interval has passed.
    pub fn new(now: TimePoint) -> (r: MetaState)
        ensures
            r.next_state_save == now.later(TimeSpan::of_secs(STATE_SAVE_SECS as int)),
    {
        MetaState { next_state_save: now.saturating_add(TimeSpan::from_secs(STATE_SAVE_SECS)) }
    }

    /// Whether a save is due at `now`.
    pub fn save_due(&self, now: TimePoint) -> (b: bool)
        ensures
            b == (self.next_state_save.nanos < now.nanos),
    {
        self.next_state_save.nanos < now.nanos
    }

    /// Records that the state was saved at `now`: the next save is due when
    /// the interval has passed again.
    pub fn saved(&mut self, now: TimePoint)
        ensures
            final(self).next_state_save == now.later(TimeSpan::of_secs(STATE_SAVE_SECS as int)),
    {
        self.next_state_save = now.saturating_add(TimeSpan::from_secs(STATE_SAVE_SECS));
    }

    /// The name of the temporary file with the number `n`.
    pub fn temp_file_name_for(n: u32) -> (r: String)
        ensures
            r@ == temp_name(n),
    {
        let mut name = format_u64(n as u64);
        extend(&mut name, &to_chars("-state.json.temp"));
        from_chars(&name)
    }

    /// A name for a temporary file, with a number drawn at random.
    pub fn temp_file_name() -> (r: String)
        ensures
            exists|n: u32| r@ == #[trigger] temp_name(n),
    {
        let n = random_u32();
        let r = MetaState::temp_file_name_for(n);
        assert(r@ == temp_name(n));
        r
    }

    /// Whether a file of this name is a leftover of an interrupted save.
    pub fn is_temp_file(name: &str) -> (b: bool)
        ensures
            b == is_temp_name(name@),
    {
        let chars = to_chars(name);
        let ext = to_chars(".temp");
        proof {
            reveal_strlit(".temp");
        }
        if chars.len() < 6 {
            return false;
        }
        matches_at(&chars, &ext, chars.len() - 5)
    }

    /// The state with which a session starts at `now`. Without a snapshot
    /// it is made anew from the configured channels. A snapshot is kept as
    /// it is, and gets a fresh state for each configured channel that it
    /// does not hold.
    pub fn try_read_state(channels: &Vec<String>, snapshot: Option<State>, now: TimePoint) -> (r:
        State)
        ensures
            match snapshot {
                Some(saved) => r@.channels == merged_channels(
                    saved@.channels,
                    texts(channels@),
                    now,
                ) && r@.ignores == saved@.ignores,
                None => r@.channels == fresh_channels(texts(channels@), now) && r@.ignores
                    == Set::<Seq<char>>::empty(),
            },
    {
        match snapshot {
            Some(saved) => State::merge(channels, saved, now),
            None => State::new(channels, now),
        }
    }
}

} // verus!
