use cynobot::channel::{ChannelState, Mood};
use cynobot::clock::{MinMax, TimePoint, TimeSpan};
use cynobot::random::draw_span;
use cynobot::state::{add_ignore, ignored, remove_ignore, State};
use std::hash::{Hash, Hasher};

const SEC: u128 = 1_000_000_000;

fn at(secs: u128) -> TimePoint {
    TimePoint { nanos: secs * SEC }
}

#[test]
fn time_spans_count_nanoseconds() {
    assert_eq!(TimeSpan::from_secs(3).nanos, 3 * SEC);
    assert_eq!(TimeSpan::from_secs(u64::MAX).nanos, u64::MAX as u128 * SEC);
    assert_eq!(TimeSpan { nanos: 2 * SEC + 999_999_999 }.as_secs(), 2);
    assert_eq!(
        TimeSpan { nanos: 5 }.saturating_add(TimeSpan { nanos: 7 }),
        TimeSpan { nanos: 12 }
    );
    assert_eq!(
        TimeSpan { nanos: u128::MAX - 1 }.saturating_add(TimeSpan { nanos: 7 }),
        TimeSpan { nanos: u128::MAX }
    );
}

#[test]
fn time_points_compare_and_subtract() {
    assert_eq!(TimePoint::epoch(), TimePoint { nanos: 0 });
    assert_eq!(at(10).elapsed_since(at(4)), TimeSpan { nanos: 6 * SEC });
    assert_eq!(at(4).elapsed_since(at(10)), TimeSpan { nanos: 0 });
    assert!(at(10).is_past(at(4), TimeSpan::from_secs(5)));
    assert!(!at(10).is_past(at(4), TimeSpan::from_secs(6)));
    assert!(!at(10).is_past(at(4), TimeSpan { nanos: u128::MAX }));
    assert_eq!(at(1).saturating_add(TimeSpan::from_secs(2)), at(3));
    assert_eq!(
        TimePoint { nanos: u128::MAX }.saturating_add(TimeSpan::from_secs(2)),
        TimePoint { nanos: u128::MAX }
    );
}

#[test]
fn min_max_holds_both_ends() {
    let r = MinMax::new(1u8, 2u8);
    assert_eq!(r.min, 1);
    assert_eq!(r.max, 2);
}

#[test]
fn a_draw_lies_in_its_range() {
    let min = TimeSpan::from_secs(1200);
    let max = TimeSpan::from_secs(1800);
    let mut seen_other_than_min = false;
    for _ in 0..200 {
        let d = draw_span(min, max);
        assert!(min.nanos <= d.nanos && d.nanos < max.nanos);
        if d != min {
            seen_other_than_min = true;
        }
    }
    assert!(seen_other_than_min);
}

#[test]
fn a_draw_from_a_wide_range_lies_in_it() {
    let min = TimeSpan { nanos: 999_999_999 };
    let max = TimeSpan { nanos: u128::MAX };
    for _ in 0..200 {
        let d = draw_span(min, max);
        assert!(min.nanos <= d.nanos && d.nanos < max.nanos);
    }
}

#[test]
fn a_draw_from_an_empty_range_is_its_lower_end() {
    let five = TimeSpan::from_secs(5);
    assert_eq!(draw_span(five, five), five);
    assert_eq!(draw_span(five, TimeSpan::from_secs(1)), five);
}

#[test]
fn a_draw_from_a_range_of_one_nanosecond_is_fixed() {
    let min = TimeSpan { nanos: 77 };
    assert_eq!(draw_span(min, TimeSpan { nanos: 78 }), min);
}

#[test]
fn a_new_channel_starts_in_normal_mood() {
    let cs = ChannelState::new("room", at(100));
    assert_eq!(cs.channel_name, "room");
    assert!(!cs.dedup_message);
    assert!(!cs.direct_message);
    assert_eq!(cs.last_advice, at(100));
    assert_eq!(cs.last_message, at(100));
    assert_eq!(cs.mood, Mood::Normal);
    assert_eq!(cs.next_advice, TimeSpan::from_secs(3 * 60 * 60));
    assert_eq!(cs.next_message.min, TimeSpan::from_secs(1200));
    assert_eq!(cs.next_message.max, TimeSpan::from_secs(1800));
    assert_eq!(cs.off_topic, None);
    assert_eq!(cs.current_topic, None);
    assert_eq!(cs.total_off_topic, TimeSpan { nanos: 0 });
}

#[test]
fn mood_names() {
    assert_eq!(Mood::Normal.to_string(), "normal");
    assert_eq!(Mood::Backoff.to_string(), "agitated");
}

#[test]
fn set_mood_changes_the_mood_only() {
    let mut cs = ChannelState::new("room", at(100));
    cs.set_mood(Mood::Backoff);
    assert_eq!(cs.mood, Mood::Backoff);
    assert_eq!(cs.last_message, at(100));
}

#[test]
fn duplicate_copies_every_field() {
    let mut cs = ChannelState::new("room", at(100));
    cs.off_topic = Some(at(7));
    cs.current_topic = Some("rust".to_string());
    cs.dedup_message = true;
    let copy = cs.duplicate();
    assert_eq!(format!("{:?}", copy), format!("{:?}", cs));
}

#[test]
fn a_forced_send_always_goes_out_and_resets_the_clocks() {
    let mut cs = ChannelState::new("room", at(100));
    cs.direct_message = true;
    let mut outbox = vec!["before".to_string()];
    cs.force_send_message(&mut outbox, "now", at(101));
    assert_eq!(outbox, vec!["before".to_string(), "now".to_string()]);
    assert!(cs.dedup_message);
    assert!(!cs.direct_message);
    assert_eq!(cs.last_advice, at(101));
    assert_eq!(cs.last_message, at(101));
}

#[test]
fn a_throttled_send_waits_for_the_draw() {
    let mut cs = ChannelState::new("room", at(100));
    let mut outbox = Vec::new();
    let draw = TimeSpan::from_secs(1500);
    assert!(!cs.send_message_with(&mut outbox, "early", at(1600), draw));
    assert!(outbox.is_empty());
    assert_eq!(cs.last_message, at(100));
    assert!(!cs.dedup_message);
    assert!(cs.send_message_with(&mut outbox, "late", at(1601), draw));
    assert_eq!(outbox, vec!["late".to_string()]);
    assert_eq!(cs.last_message, at(1601));
    assert_eq!(cs.last_advice, at(1601));
    assert!(cs.dedup_message);
}

#[test]
fn the_override_lets_one_message_pass() {
    let mut cs = ChannelState::new("room", at(100));
    cs.direct_message = true;
    let mut outbox = Vec::new();
    let draw = TimeSpan::from_secs(1500);
    assert!(cs.send_message_with(&mut outbox, "one", at(100), draw));
    assert!(!cs.send_message_with(&mut outbox, "two", at(100), draw));
    assert_eq!(outbox, vec!["one".to_string()]);
}

#[test]
fn inside_the_window_nothing_is_sent_and_nothing_changes() {
    let mut cs = ChannelState::new("room", at(100));
    let before = format!("{:?}", cs);
    let mut outbox = Vec::new();
    for _ in 0..50 {
        assert!(!cs.send_message(&mut outbox, "no", at(100 + 1200)));
    }
    assert!(outbox.is_empty());
    assert_eq!(format!("{:?}", cs), before);
}

#[test]
fn past_the_window_the_message_is_sent() {
    for _ in 0..50 {
        let mut cs = ChannelState::new("room", at(100));
        let mut outbox = Vec::new();
        assert!(cs.send_message(&mut outbox, "yes", at(100 + 1800)));
        assert_eq!(outbox, vec!["yes".to_string()]);
        assert_eq!(cs.last_message, at(1900));
    }
}

#[test]
fn the_key_of_a_channel_is_the_default_hash_of_its_name() {
    for name in ["", "room", "some_channel", "ünïcödé"] {
        let mut s = std::collections::hash_map::DefaultHasher::new();
        name.hash(&mut s);
        assert_eq!(State::chash(name), s.finish(), "{:?}", name);
    }
    assert_ne!(State::chash("a"), State::chash("b"));
}

#[test]
fn a_new_session_holds_its_channels() {
    let names = vec!["a".to_string(), "b".to_string(), "a".to_string()];
    let state = State::new(&names, at(9));
    assert_eq!(state.channels.len(), 2);
    assert!(state.ignores.is_empty());
    let a = &state.channels[&State::chash("a")];
    assert_eq!(a.channel_name, "a");
    assert_eq!(a.last_message, at(9));
    assert_eq!(state.channels[&State::chash("b")].channel_name, "b");
}

#[test]
fn merge_keeps_what_was_saved_and_adds_what_is_new() {
    let mut saved = State::new(&vec!["a".to_string(), "gone".to_string()], at(1));
    saved.set_mood("a", Mood::Backoff);
    saved.ignore("bob");
    let before_a = format!("{:?}", saved.channels[&State::chash("a")]);
    let before_gone = format!("{:?}", saved.channels[&State::chash("gone")]);
    let merged = State::merge(&vec!["a".to_string(), "b".to_string()], saved, at(50));
    assert_eq!(merged.channels.len(), 3);
    assert_eq!(format!("{:?}", merged.channels[&State::chash("a")]), before_a);
    assert_eq!(format!("{:?}", merged.channels[&State::chash("gone")]), before_gone);
    let b = &merged.channels[&State::chash("b")];
    assert_eq!(b.channel_name, "b");
    assert_eq!(b.last_message, at(50));
    assert_eq!(b.mood, Mood::Normal);
    assert!(merged.is_ignored("bob"));
}

#[test]
fn merge_with_the_same_channels_changes_nothing() {
    let names = vec!["a".to_string(), "b".to_string()];
    let mut saved = State::new(&names, at(1));
    saved.set_mood("b", Mood::Backoff);
    let before = format!("{:?}", saved);
    let merged = State::merge(&names, saved, at(50));
    let mut left: Vec<String> = merged.channels.values().map(|c| format!("{:?}", c)).collect();
    left.sort();
    assert_eq!(left.len(), 2);
    for c in left {
        assert!(before.contains(&c));
    }
}

#[test]
fn set_mood_passes_over_a_channel_that_is_not_held() {
    let mut state = State::new(&vec!["a".to_string()], at(1));
    state.set_mood("zzz", Mood::Backoff);
    assert_eq!(state.channels.len(), 1);
    assert_eq!(state.channels[&State::chash("a")].mood, Mood::Normal);
    state.set_mood("a", Mood::Backoff);
    assert_eq!(state.channels[&State::chash("a")].mood, Mood::Backoff);
}

#[test]
fn users_are_ignored_and_noticed() {
    let mut state = State::new(&Vec::new(), at(1));
    assert!(!state.is_ignored("bob"));
    state.ignore("bob");
    state.ignore("bob");
    state.ignore("eve");
    assert!(state.is_ignored("bob"));
    assert_eq!(state.ignores.len(), 2);
    state.notice("bob");
    assert!(!state.is_ignored("bob"));
    assert!(state.is_ignored("eve"));
    state.notice("nobody");
    assert_eq!(state.ignores, vec!["eve".to_string()]);
}

#[test]
fn names_are_added_and_removed() {
    let mut names = vec!["a".to_string(), "b".to_string(), "a".to_string()];
    assert!(ignored(&names, "a"));
    remove_ignore(&mut names, "a");
    assert_eq!(names, vec!["b".to_string()]);
    add_ignore(&mut names, "b");
    assert_eq!(names, vec!["b".to_string()]);
    add_ignore(&mut names, "c");
    assert_eq!(names, vec!["b".to_string(), "c".to_string()]);
}
