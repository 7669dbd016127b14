use cynobot::channel::{ChannelState, Mood};
use cynobot::clock::{TimePoint, TimeSpan};
use cynobot::lists::Lists;
use cynobot::passive::{
    send_passive_advice, send_passive_question, sweep, sweep_all, sweep_scripted,
};
use cynobot::dispatch::{DispatchError, Event};
use cynobot::rules::{load_map, ListsMaps, Table};
use cynobot::session::{round, round_with};
use cynobot::snapshot::MetaState;
use cynobot::state::State;
use cynobot::supervisor::{backoff_secs, next_fail_count};
use cynobot::tokens::{is_in_word, tokenize_marked, tokenize_message, CharGroup};
use cynobot::triggers::Draws;

const SEC: u128 = 1_000_000_000;

fn at(secs: u128) -> TimePoint {
    TimePoint { nanos: secs * SEC }
}

fn rules() -> ListsMaps {
    let mut lists = Lists::new();
    lists.insert("passive_advice".to_string(), vec!["stretch".to_string(), "rest".to_string()]);
    lists.insert("questions".to_string(), vec!["why?".to_string()]);
    ListsMaps::new(Table::new(), Table::new(), lists, Vec::new(), Table::new())
}

#[test]
fn forced_advice_goes_out() {
    let lm = rules();
    let mut cs = ChannelState::new("room", at(100));
    let mut outbox = Vec::new();
    send_passive_advice(&mut cs, &mut outbox, &lm, at(101), true);
    assert_eq!(outbox.len(), 1);
    assert!(outbox[0] == "stretch" || outbox[0] == "rest");
    assert_eq!(cs.last_message, at(101));
    send_passive_question(&mut cs, &mut outbox, &lm, at(102), true);
    assert_eq!(outbox[1], "why?");
}

#[test]
fn advice_that_is_not_forced_goes_through_the_throttle() {
    let lm = rules();
    let mut cs = ChannelState::new("room", at(100));
    let mut outbox = Vec::new();
    send_passive_advice(&mut cs, &mut outbox, &lm, at(101), false);
    send_passive_question(&mut cs, &mut outbox, &lm, at(101), false);
    assert!(outbox.is_empty());
    assert_eq!(cs.last_message, at(100));
    send_passive_question(&mut cs, &mut outbox, &lm, at(100 + 1800), false);
    assert_eq!(outbox, vec!["why?".to_string()]);
}

#[test]
fn the_sweep_waits_for_the_deadline() {
    let lm = rules();
    let mut cs = ChannelState::new("room", at(100));
    let before = format!("{:?}", cs);
    let mut outbox = Vec::new();
    sweep(&mut cs, &mut outbox, &lm, at(100 + 10800));
    assert!(outbox.is_empty());
    assert_eq!(format!("{:?}", cs), before);
    sweep(&mut cs, &mut outbox, &lm, at(100 + 10801));
    assert_eq!(outbox.len(), 1);
    assert_eq!(cs.last_advice, at(100 + 10801));
}

#[test]
fn the_sweep_keeps_quiet_after_a_message_of_this_round() {
    let lm = rules();
    let mut cs = ChannelState::new("room", at(100));
    cs.dedup_message = true;
    let mut outbox = Vec::new();
    sweep(&mut cs, &mut outbox, &lm, at(100 + 20000));
    assert!(outbox.is_empty());
}

#[test]
fn the_sweep_ends_a_backoff() {
    let lm = rules();
    let mut cs = ChannelState::new("room", at(100));
    cs.mood = Mood::Backoff;
    cs.next_advice = TimeSpan::from_secs(86400);
    let mut outbox = Vec::new();
    sweep(&mut cs, &mut outbox, &lm, at(100 + 86400));
    assert_eq!(cs.mood, Mood::Backoff);
    sweep(&mut cs, &mut outbox, &lm, at(100 + 86401));
    assert_eq!(cs.mood, Mood::Normal);
    assert_eq!(cs.next_advice, TimeSpan::from_secs(10800));
    assert!(outbox.is_empty());
}

#[test]
fn a_save_is_due_after_the_interval() {
    let mut meta = MetaState::new(at(1000));
    assert_eq!(meta.next_state_save, at(1060));
    assert!(!meta.save_due(at(1060)));
    assert!(meta.save_due(TimePoint { nanos: 1060 * SEC + 1 }));
    meta.saved(at(1061));
    assert_eq!(meta.next_state_save, at(1121));
    assert!(!meta.save_due(at(1100)));
}

#[test]
fn temporary_files_are_named_by_a_number() {
    assert_eq!(MetaState::temp_file_name_for(0), "0-state.json.temp");
    assert_eq!(MetaState::temp_file_name_for(4294967295), "4294967295-state.json.temp");
    let name = MetaState::temp_file_name();
    assert!(name.ends_with("-state.json.temp"));
    assert!(name.trim_end_matches("-state.json.temp").parse::<u32>().is_ok());
    assert!(MetaState::is_temp_file(&name));
}

#[test]
fn temporary_files_are_told_by_their_extension() {
    let cases = ["a.temp", "17-state.json.temp", ".temp", "temp", "a.temp.json", "state.json", "", "..temp", "a.TEMP", "xtemp"];
    for name in cases {
        let expected = std::path::Path::new(name).extension().map(|e| e == "temp").unwrap_or(false);
        assert_eq!(MetaState::is_temp_file(name), expected, "{:?}", name);
    }
}

#[test]
fn without_a_snapshot_the_state_is_made_anew() {
    let names = vec!["a".to_string()];
    let state = MetaState::try_read_state(&names, None, at(5));
    assert_eq!(state.channels.len(), 1);
    assert_eq!(state.channels[&State::chash("a")].last_message, at(5));
}

#[test]
fn a_snapshot_is_kept_and_completed() {
    let mut saved = State::new(&vec!["a".to_string()], at(5));
    saved.set_mood("a", Mood::Backoff);
    saved.ignore("bob");
    let state = MetaState::try_read_state(
        &vec!["a".to_string(), "b".to_string()],
        Some(saved),
        at(9),
    );
    assert_eq!(state.channels.len(), 2);
    assert_eq!(state.channels[&State::chash("a")].mood, Mood::Backoff);
    assert_eq!(state.channels[&State::chash("a")].last_message, at(5));
    assert_eq!(state.channels[&State::chash("b")].last_message, at(9));
    assert!(state.is_ignored("bob"));
}

#[test]
fn the_wait_doubles_with_each_failure() {
    assert_eq!(backoff_secs(0), Some(1));
    assert_eq!(backoff_secs(1), Some(2));
    assert_eq!(backoff_secs(10), Some(1024));
    assert_eq!(backoff_secs(63), Some(1u64 << 63));
    assert_eq!(backoff_secs(64), None);
    assert_eq!(backoff_secs(u32::MAX), None);
}

#[test]
fn failures_are_counted_inside_the_window() {
    assert_eq!(next_fail_count(0, TimeSpan::from_secs(10)), 1);
    assert_eq!(next_fail_count(4, TimeSpan { nanos: 3600 * SEC - 1 }), 5);
    assert_eq!(next_fail_count(4, TimeSpan::from_secs(3600)), 0);
    assert_eq!(next_fail_count(u32::MAX, TimeSpan::from_secs(1)), u32::MAX);
}

#[test]
fn a_message_is_cut_into_tokens() {
    assert_eq!(
        tokenize_message("don't stop, 42!"),
        vec!["don't", " ", "stop", ",", " ", "42", "!"]
    );
    assert_eq!(tokenize_message(""), Vec::<String>::new());
    assert_eq!(tokenize_message("  "), vec![" ", " "]);
    assert_eq!(tokenize_message("héllo wörld"), vec!["héllo", " ", "wörld"]);
    assert_eq!(tokenize_message("a+b"), vec!["a", "+", "b"]);
    assert_eq!(tokenize_message("x\u{301}y"), vec!["x", "\u{301}", "y"]);
}

#[test]
fn tokens_follow_the_marks() {
    let data: Vec<char> = "abcd".chars().collect();
    assert_eq!(
        tokenize_marked(&data, &vec![true, true, false, true]),
        vec!["ab", "c", "d"]
    );
    assert_eq!(tokenize_marked(&data, &vec![false; 4]), vec!["a", "b", "c", "d"]);
    assert_eq!(tokenize_marked(&data, &vec![true; 4]), vec!["abcd"]);
    assert_eq!(tokenize_marked(&data, &vec![true; 3]), Vec::<String>::new());
}

#[test]
fn letters_numbers_and_apostrophes_belong_into_words() {
    assert!(is_in_word(CharGroup::Letter, 'a'));
    assert!(is_in_word(CharGroup::Number, '1'));
    assert!(is_in_word(CharGroup::Punctuation, '\''));
    assert!(!is_in_word(CharGroup::Punctuation, ','));
    assert!(!is_in_word(CharGroup::Mark, '\u{301}'));
    assert!(!is_in_word(CharGroup::Symbol, '+'));
    assert!(!is_in_word(CharGroup::Separator, ' '));
    assert!(!is_in_word(CharGroup::Other, '\n'));
}

#[test]
fn a_scripted_sweep_sends_the_picked_advice() {
    let lm = rules();
    for (pick, expected) in [(0, "stretch"), (1, "rest"), (5, "rest")] {
        let mut cs = ChannelState::new("room", at(100));
        let mut outbox = Vec::new();
        let script = Draws { picks: vec![pick], draw: TimeSpan::from_secs(1500) };
        sweep_scripted(&mut cs, &mut outbox, &lm, at(100 + 10801), &script);
        assert_eq!(outbox, vec![expected.to_string()]);
        assert_eq!(cs.last_message, at(100 + 10801));
    }
}

#[test]
fn a_scripted_sweep_obeys_the_scripted_wait() {
    let lm = rules();
    let mut cs = ChannelState::new("room", at(100));
    cs.last_message = at(10000);
    let before = format!("{:?}", cs);
    let mut outbox = Vec::new();
    let script = Draws { picks: vec![0], draw: TimeSpan::from_secs(1500) };
    sweep_scripted(&mut cs, &mut outbox, &lm, at(100 + 10801), &script);
    assert!(outbox.is_empty());
    assert_eq!(format!("{:?}", cs), before);
}

#[test]
fn the_keys_of_a_session_are_listed_once_each() {
    let state = State::new(&vec!["a".to_string(), "b".to_string(), "a".to_string()], at(1));
    let mut keys = state.channel_keys();
    keys.sort();
    let mut expected = vec![State::chash("a"), State::chash("b")];
    expected.sort();
    assert_eq!(keys, expected);
    assert!(State::new(&Vec::new(), at(1)).channel_keys().is_empty());
}

#[test]
fn every_channel_is_swept() {
    let lm = rules();
    let names = vec!["due".to_string(), "fresh".to_string(), "away".to_string()];
    let mut state = State::new(&names, at(100));
    state.set_mood("away", Mood::Backoff);
    state.ignore("bob");
    let now = at(100 + 10801);
    let mut fresh = state.channels.remove(&State::chash("fresh")).unwrap();
    fresh.last_advice = now;
    let fresh_before = format!("{:?}", fresh);
    state.channels.insert(State::chash("fresh"), fresh);
    let mail = sweep_all(&mut state, &lm, now);
    assert_eq!(mail.len(), 1);
    assert_eq!(mail[0].key, State::chash("due"));
    assert_eq!(mail[0].channel, "due");
    assert!(mail[0].text == "stretch" || mail[0].text == "rest");
    assert_eq!(state.channels.len(), 3);
    assert_eq!(state.channels[&State::chash("due")].last_advice, now);
    assert_eq!(format!("{:?}", state.channels[&State::chash("fresh")]), fresh_before);
    assert_eq!(state.channels[&State::chash("away")].mood, Mood::Normal);
    assert!(state.is_ignored("bob"));
}

#[test]
fn a_sweep_of_no_channels_sends_nothing() {
    let lm = rules();
    let mut state = State::new(&Vec::new(), at(100));
    assert!(sweep_all(&mut state, &lm, at(99999)).is_empty());
}

fn talking_rules() -> ListsMaps {
    let mut lists = Lists::new();
    lists.insert("passive_advice".to_string(), vec!["stretch".to_string()]);
    let (_, commands) = load_map("!repeat=REPEAT", &lists).unwrap();
    let (multi, triggers) = load_map("hello=hi {user}", &lists).unwrap();
    ListsMaps::new(commands, Table::new(), lists, multi, triggers)
}

fn line(channel: &str, text: &str) -> Event {
    Event::ChatLine { channel: channel.to_string(), user: "bob".to_string(), text: text.to_string() }
}

#[test]
fn a_round_deals_with_the_event_and_sweeps() {
    let lm = talking_rules();
    let mut state = State::new(&vec!["room".to_string(), "idle".to_string()], at(100));
    let now = at(100 + 10801);
    let mail = round(&mut state, &lm, &line("#room", "!repeat 2 x"), now).unwrap();
    assert_eq!(mail.len(), 2);
    assert_eq!(mail[0].key, State::chash("room"));
    assert_eq!(mail[0].channel, "room");
    assert_eq!(mail[0].text, "x x ");
    assert_eq!(mail[1].key, State::chash("idle"));
    assert_eq!(mail[1].channel, "idle");
    assert_eq!(mail[1].text, "stretch");
    assert!(!state.channels[&State::chash("room")].dedup_message);
    assert_eq!(state.channels[&State::chash("room")].last_message, now);
    assert_eq!(state.channels[&State::chash("idle")].last_advice, now);
}

#[test]
fn a_round_sweeps_after_any_event() {
    let lm = talking_rules();
    let mut state = State::new(&vec!["room".to_string()], at(100));
    assert!(round(&mut state, &lm, &Event::Other, at(200)).unwrap().is_empty());
    let mail = round(&mut state, &lm, &Event::Other, at(100 + 10801)).unwrap();
    assert_eq!(mail.len(), 1);
    assert_eq!(mail[0].text, "stretch");
}

#[test]
fn a_round_answers_a_trigger_with_the_given_lower_case_form() {
    let lm = talking_rules();
    let mut state = State::new(&vec!["room".to_string()], at(100));
    let mail =
        round_with(&mut state, &lm, &line("#room", "HELLO"), "hello", at(100 + 1800)).unwrap();
    assert_eq!(mail.len(), 1);
    assert_eq!(mail[0].text, "hi bob");
    assert_eq!(mail[0].channel, "room");
}

#[test]
fn a_round_refuses_an_unknown_channel_and_changes_nothing() {
    let lm = talking_rules();
    let mut state = State::new(&vec!["room".to_string()], at(100));
    let before = format!("{:?}", state);
    let r = round(&mut state, &lm, &line("#nowhere", "hello"), at(100 + 99999));
    assert_eq!(r.err(), Some(DispatchError::UnknownChannel));
    assert_eq!(format!("{:?}", state), before);
}
