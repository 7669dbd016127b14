use cynobot::channel::{ChannelState, Mood};
use cynobot::clock::{TimePoint, TimeSpan};
use cynobot::commands::{list_commands, parse_op, Op};
use cynobot::dispatch::{
    handle_message, handle_message_with, parse_command, parse_command_scripted,
    parse_command_with, DispatchError, Event, Script,
};
use cynobot::lists::Lists;
use cynobot::rules::{load_map, ListsMaps};
use cynobot::state::State;
use cynobot::triggers::{
    find_last_match, handle_triggers, handle_triggers_with, matches_multi, respond_to_triggers,
    Draws,
};

const SEC: u128 = 1_000_000_000;
const START: u128 = 1_700_000_000;

fn at(secs: u128) -> TimePoint {
    TimePoint { nanos: secs * SEC }
}

fn rules() -> ListsMaps {
    let mut lists = Lists::new();
    lists.insert("passive_advice".to_string(), vec!["drink water".to_string()]);
    lists.insert("questions".to_string(), vec!["how are you, {me}?".to_string()]);
    lists.insert("langs".to_string(), vec!["cpp".to_string(), "rust".to_string()]);
    lists.insert("praise".to_string(), vec!["nice".to_string(), "neat".to_string()]);
    let (multi, triggers) = load_map(
        "hello=hi {user}\n\
         [langs]=[praise]\n\
         ghost=[nope]\n\
         cpp bad=no u, {user}\n\
         is bad=second for {trigger}\n\
         {user} rocks=thanks\n",
        &lists,
    )
    .unwrap();
    let (_, commands) = load_map(
        "!commands=COMMANDS\n\
         !config=CONFIG\n\
         !leave=LEAVE\n\
         !join=JOIN\n\
         !advice=RANDOM_STATEMENT\n\
         !ask=RANDOM_QUESTION\n\
         !ignore=IGNORE_ME\n\
         !notice=NOTICE_ME\n\
         !offtopic=OFF_TOPIC\n\
         !ontopic=ON_TOPIC\n\
         !total=TOTAL_OFF_TOPIC\n\
         !topic=SET_TOPIC\n\
         !resetcd=RESETCD\n\
         !spam=REPEAT_MAPPED buy  now\n\
         !repeat=REPEAT\n\
         !bogus=NO_SUCH_THING\n\
         !help=LEAVE\n",
        &lists,
    )
    .unwrap();
    let (_, command_text) = load_map("!help=ask {user} or {me}\n!about=[praise]\n", &lists).unwrap();
    ListsMaps::new(commands, command_text, lists, multi, triggers)
}

fn session() -> State {
    State::new(&vec!["room".to_string()], at(START))
}

fn room(state: &State) -> &ChannelState {
    &state.channels[&State::chash("room")]
}

fn say(state: &mut State, lm: &ListsMaps, user: &str, data: &str, now: TimePoint) -> Vec<String> {
    let mut outbox = Vec::new();
    assert_eq!(parse_command(state, &mut outbox, lm, "room", user, data, now), Ok(()));
    outbox
}

#[test]
fn mnemonics_are_read() {
    let word = |s: &str| -> Vec<char> { s.chars().collect() };
    assert_eq!(parse_op(&word("COMMANDS")), Some(Op::Commands));
    assert_eq!(parse_op(&word("CONFIG")), Some(Op::Config));
    assert_eq!(parse_op(&word("LEAVE")), Some(Op::Leave));
    assert_eq!(parse_op(&word("JOIN")), Some(Op::Join));
    assert_eq!(parse_op(&word("RANDOM_STATEMENT")), Some(Op::RandomStatement));
    assert_eq!(parse_op(&word("RANDOM_QUESTION")), Some(Op::RandomQuestion));
    assert_eq!(parse_op(&word("IGNORE_ME")), Some(Op::IgnoreMe));
    assert_eq!(parse_op(&word("NOTICE_ME")), Some(Op::NoticeMe));
    assert_eq!(parse_op(&word("OFF_TOPIC")), Some(Op::OffTopic));
    assert_eq!(parse_op(&word("ON_TOPIC")), Some(Op::OnTopic));
    assert_eq!(parse_op(&word("TOTAL_OFF_TOPIC")), Some(Op::TotalOffTopic));
    assert_eq!(parse_op(&word("SET_TOPIC")), Some(Op::SetTopic));
    assert_eq!(parse_op(&word("RESETCD")), Some(Op::ResetCd));
    assert_eq!(parse_op(&word("REPEAT_MAPPED")), Some(Op::RepeatMapped));
    assert_eq!(parse_op(&word("REPEAT")), Some(Op::Repeat));
    assert_eq!(parse_op(&word("repeat")), None);
    assert_eq!(parse_op(&word("")), None);
}

#[test]
fn a_line_from_an_unknown_channel_is_refused() {
    let lm = rules();
    let mut state = session();
    let before = format!("{:?}", state);
    let mut outbox = Vec::new();
    let r = parse_command(&mut state, &mut outbox, &lm, "elsewhere", "bob", "hello", at(START));
    assert_eq!(r, Err(DispatchError::UnknownChannel));
    assert!(outbox.is_empty());
    assert_eq!(format!("{:?}", state), before);
}

#[test]
fn repeat_three_times() {
    let lm = rules();
    let mut state = session();
    let sent = say(&mut state, &lm, "bob", "!repeat 3 hi", at(START + 1));
    assert_eq!(sent, vec!["hi hi hi ".to_string()]);
    assert_eq!(room(&state).last_message, at(START + 1));
    assert!(room(&state).dedup_message);
}

#[test]
fn repeat_is_clamped_to_two_hundred() {
    let lm = rules();
    let mut state = session();
    let sent = say(&mut state, &lm, "bob", "!repeat 500 hi", at(START + 1));
    assert_eq!(sent, vec!["hi ".repeat(200)]);
}

#[test]
fn repeat_joins_the_rest_of_the_line_with_single_spaces() {
    let lm = rules();
    let mut state = session();
    let sent = say(&mut state, &lm, "bob", "!repeat 2   a \t b  ", at(START + 1));
    assert_eq!(sent, vec!["a b a b ".to_string()]);
}

#[test]
fn repeat_counts() {
    let lm = rules();
    let cases = [
        ("!repeat 0 hi", ""),
        ("!repeat -4 hi", ""),
        ("!repeat 1 hi", "hi "),
        ("!repeat +2 hi", "hi hi "),
        ("!repeat x hi", "hi "),
        ("!repeat 99999999999 hi", "hi "),
        ("!repeat", " "),
        ("!repeat 2", "  "),
    ];
    for (line, expected) in cases {
        let mut state = session();
        let sent = say(&mut state, &lm, "bob", line, at(START + 1));
        assert_eq!(sent, vec![expected.to_string()], "{:?}", line);
    }
}

#[test]
fn repeat_mapped_repeats_the_text_of_the_command() {
    let lm = rules();
    let mut state = session();
    let sent = say(&mut state, &lm, "bob", "!spam 2 ignored", at(START + 1));
    assert_eq!(sent, vec!["buy now buy now ".to_string()]);
    let sent = say(&mut state, &lm, "bob", "!spam 1000", at(START + 2));
    assert_eq!(sent, vec!["buy now ".repeat(200)]);
}

#[test]
fn a_repeated_text_is_rendered() {
    let lm = rules();
    let mut state = session();
    let sent = say(&mut state, &lm, "bob", "!repeat 2 {user} {me}", at(START + 1));
    assert_eq!(sent, vec!["bob somewhatinaccurate bob somewhatinaccurate ".to_string()]);
}

#[test]
fn commands_lists_every_name_once() {
    let lm = rules();
    assert_eq!(
        list_commands(&lm),
        "!help, !about, !commands, !config, !leave, !join, !advice, !ask, !ignore, !notice, \
         !offtopic, !ontopic, !total, !topic, !resetcd, !spam, !repeat, !bogus"
    );
    let mut state = session();
    let sent = say(&mut state, &lm, "bob", "!commands", at(START + 1));
    assert_eq!(sent, vec![list_commands(&lm)]);
}

#[test]
fn config_sets_the_range_of_the_throttle() {
    let lm = rules();
    let mut state = session();
    let sent = say(&mut state, &lm, "bob", "!config cd 5 10", at(START + 1));
    assert_eq!(sent, vec!["successfully changed message cooldown to 5s-10s".to_string()]);
    assert_eq!(room(&state).next_message.min, TimeSpan::from_secs(5));
    assert_eq!(room(&state).next_message.max, TimeSpan::from_secs(10));
    assert_eq!(room(&state).last_message, at(START + 1));
}

#[test]
fn config_puts_the_smaller_number_first() {
    let lm = rules();
    let mut state = session();
    let sent = say(&mut state, &lm, "bob", "!CONFIG CD 30 20 extra", at(START + 1));
    assert_eq!(sent, Vec::<String>::new());
    let sent = say(&mut state, &lm, "bob", "!config CD 30 20 extra", at(START + 1));
    assert_eq!(sent, vec!["successfully changed message cooldown to 20s-30s".to_string()]);
    assert_eq!(room(&state).next_message.min, TimeSpan::from_secs(20));
    assert_eq!(room(&state).next_message.max, TimeSpan::from_secs(30));
}

#[test]
fn config_answers_bad_numbers_with_the_usage() {
    let lm = rules();
    let usage = "invalid command, expected format \"cd <min> <max>\" where <min> and <max> are integer numbers";
    for line in ["!config cd", "!config cd 5", "!config cd five 10", "!config cd 5 -10", "!config cd 1.5 2"] {
        let mut state = session();
        let sent = say(&mut state, &lm, "bob", line, at(START + 1));
        assert_eq!(sent, vec![usage.to_string()], "{:?}", line);
        assert_eq!(room(&state).next_message.min, TimeSpan::from_secs(1200));
        assert_eq!(room(&state).next_message.max, TimeSpan::from_secs(1800));
    }
}

#[test]
fn config_passes_over_other_settings() {
    let lm = rules();
    for line in ["!config", "!config volume 3 4"] {
        let mut state = session();
        let before = format!("{:?}", state);
        let sent = say(&mut state, &lm, "bob", line, at(START + 1));
        assert!(sent.is_empty());
        assert_eq!(format!("{:?}", state), before);
    }
}

#[test]
fn leave_and_join_change_the_mood() {
    let lm = rules();
    let mut state = session();
    assert!(say(&mut state, &lm, "bob", "!leave now", at(START + 1)).is_empty());
    assert_eq!(room(&state).mood, Mood::Backoff);
    assert_eq!(room(&state).next_advice, TimeSpan::from_secs(24 * 60 * 60));
    assert!(say(&mut state, &lm, "bob", "hello", at(START + 5000)).is_empty());
    assert!(say(&mut state, &lm, "bob", "!join", at(START + 5001)).is_empty());
    assert_eq!(room(&state).mood, Mood::Normal);
    assert_eq!(room(&state).next_advice, TimeSpan::from_secs(3 * 60 * 60));
    assert_eq!(
        say(&mut state, &lm, "bob", "hello", at(START + 5002)),
        vec!["hi bob".to_string()]
    );
}

#[test]
fn random_statement_and_question_are_forced() {
    let lm = rules();
    let mut state = session();
    assert_eq!(
        say(&mut state, &lm, "bob", "!advice", at(START + 1)),
        vec!["drink water".to_string()]
    );
    assert_eq!(
        say(&mut state, &lm, "bob", "!ask", at(START + 1)),
        vec!["how are you, {me}?".to_string()]
    );
    assert_eq!(room(&state).last_message, at(START + 1));
}

#[test]
fn random_statement_without_its_list_does_nothing() {
    let (_, commands) = load_map("!advice=RANDOM_STATEMENT", &Lists::new()).unwrap();
    let lm = ListsMaps::new(
        commands,
        load_map("", &Lists::new()).unwrap().1,
        Lists::new(),
        Vec::new(),
        load_map("", &Lists::new()).unwrap().1,
    );
    let mut state = session();
    let before = format!("{:?}", state);
    assert!(say(&mut state, &lm, "bob", "!advice", at(START + 1)).is_empty());
    assert_eq!(format!("{:?}", state), before);
}

#[test]
fn ignored_users_get_no_trigger_response() {
    let lm = rules();
    let mut state = session();
    assert!(say(&mut state, &lm, "bob", "!ignore", at(START + 1)).is_empty());
    assert!(state.is_ignored("bob"));
    assert!(say(&mut state, &lm, "bob", "hello", at(START + 5000)).is_empty());
    assert_eq!(
        say(&mut state, &lm, "eve", "hello", at(START + 5000)),
        vec!["hi eve".to_string()]
    );
    assert!(say(&mut state, &lm, "bob", "!notice", at(START + 5001)).is_empty());
    assert!(!state.is_ignored("bob"));
    assert_eq!(
        say(&mut state, &lm, "bob", "hello", at(START + 10000)),
        vec!["hi bob".to_string()]
    );
}

#[test]
fn the_off_topic_timer_runs_and_adds_up() {
    let lm = rules();
    let mut state = session();
    assert_eq!(
        say(&mut state, &lm, "bob", "!offtopic", at(START + 10)),
        vec!["starting off topic timer".to_string()]
    );
    assert_eq!(room(&state).off_topic, Some(at(START + 10)));
    assert_eq!(
        say(&mut state, &lm, "bob", "!offtopic", at(START + 10 + 3725)),
        vec!["room has already been off topic for 1h 2m 5s".to_string()]
    );
    assert_eq!(room(&state).off_topic, Some(at(START + 10)));
    assert_eq!(
        say(&mut state, &lm, "bob", "!ontopic", at(START + 10 + 7384)),
        vec!["room is finally on topic, it took them 2h 3m 4s".to_string()]
    );
    assert_eq!(room(&state).off_topic, None);
    assert_eq!(room(&state).total_off_topic, TimeSpan::from_secs(7384));
    assert!(say(&mut state, &lm, "bob", "!ontopic", at(START + 9000)).is_empty());
    say(&mut state, &lm, "bob", "!offtopic", at(START + 10000));
    say(&mut state, &lm, "bob", "!ontopic", at(START + 10016));
    assert_eq!(room(&state).total_off_topic, TimeSpan::from_secs(7400));
    assert_eq!(
        say(&mut state, &lm, "bob", "!total", at(START + 10020)),
        vec!["The streamer has been off topic a total of 2h 3m 20s".to_string()]
    );
}

#[test]
fn a_clock_that_went_back_counts_as_no_time() {
    let lm = rules();
    let mut state = session();
    say(&mut state, &lm, "bob", "!offtopic", at(START + 10));
    assert_eq!(
        say(&mut state, &lm, "bob", "!ontopic", at(START + 5)),
        vec!["room is finally on topic, it took them 0h 0m 0s".to_string()]
    );
    assert_eq!(room(&state).total_off_topic, TimeSpan { nanos: 0 });
}

#[test]
fn set_topic_acknowledges_the_first_word() {
    let lm = rules();
    let mut state = session();
    assert_eq!(
        say(&mut state, &lm, "bob", "!topic rust rules", at(START + 1)),
        vec!["current topic is now rust".to_string()]
    );
    assert_eq!(
        say(&mut state, &lm, "bob", "!topic", at(START + 1)),
        vec!["current topic is now ".to_string()]
    );
    assert_eq!(room(&state).current_topic, None);
}

#[test]
fn an_unknown_mnemonic_leaves_the_line_to_the_triggers() {
    let lm = rules();
    let mut state = session();
    assert_eq!(
        say(&mut state, &lm, "bob", "!bogus hello", at(START + 5000)),
        vec!["hi bob".to_string()]
    );
}

#[test]
fn a_canned_response_is_forced_and_ends_the_dispatch() {
    let lm = rules();
    let mut state = session();
    assert_eq!(
        say(&mut state, &lm, "bob", "!about", at(START + 1)),
        Vec::<String>::new()
    );
    let mut state = session();
    let (_, command_text) = load_map("hello=canned for {user}", &Lists::new()).unwrap();
    let lm2 = ListsMaps::new(
        load_map("", &Lists::new()).unwrap().1,
        command_text,
        Lists::new(),
        Vec::new(),
        load_map("hello=trigger", &Lists::new()).unwrap().1,
    );
    assert_eq!(
        say(&mut state, &lm2, "bob", "hello", at(START + 5000)),
        vec!["canned for bob".to_string()]
    );
    assert_eq!(
        say(&mut state, &lm2, "bob", "hello there", at(START + 10000)),
        vec!["trigger".to_string()]
    );
}

#[test]
fn a_canned_response_and_a_command_both_run() {
    let lm = rules();
    let mut state = session();
    assert_eq!(
        say(&mut state, &lm, "bob", "!help", at(START + 1)),
        vec!["ask bob or somewhatinaccurate".to_string()]
    );
    assert_eq!(room(&state).mood, Mood::Backoff);
    assert_eq!(room(&state).last_message, at(START + 1));
}

#[test]
fn a_trigger_inside_the_cooldown_is_not_answered() {
    let lm = rules();
    let mut state = session();
    let before = format!("{:?}", state);
    for _ in 0..20 {
        assert!(say(&mut state, &lm, "bob", "hello", at(START + 1200)).is_empty());
    }
    assert_eq!(format!("{:?}", state), before);
}

#[test]
fn a_trigger_past_the_cooldown_is_answered() {
    let lm = rules();
    let mut state = session();
    assert_eq!(
        say(&mut state, &lm, "bob", "well HELLO there", at(START + 1800)),
        vec!["hi bob".to_string()]
    );
    assert_eq!(room(&state).last_message, at(START + 1800));
}

#[test]
fn the_message_is_matched_in_lower_case() {
    let lm = rules();
    let mut state = session();
    assert_eq!(
        say(&mut state, &lm, "bob", "HeLLo", at(START + 1800)),
        vec!["hi bob".to_string()]
    );
}

#[test]
fn resetcd_waives_the_cooldown_once() {
    let lm = rules();
    let mut state = session();
    assert!(say(&mut state, &lm, "bob", "hello", at(START + 1)).is_empty());
    assert!(say(&mut state, &lm, "bob", "!resetcd", at(START + 2)).is_empty());
    assert_eq!(room(&state).last_message, TimePoint::epoch());
    assert_eq!(
        say(&mut state, &lm, "bob", "hello hello rust", at(START + 3)),
        vec!["hi bob".to_string()]
    );
    assert_eq!(room(&state).last_message, at(START + 3));
    assert!(say(&mut state, &lm, "bob", "hello", at(START + 4)).is_empty());
}

#[test]
fn a_word_of_a_list_key_is_answered_from_the_list() {
    let lm = rules();
    for _ in 0..20 {
        let mut state = session();
        let sent = say(&mut state, &lm, "bob", "i like rust", at(START + 1800));
        assert_eq!(sent.len(), 1);
        assert!(sent[0] == "nice" || sent[0] == "neat");
    }
}

#[test]
fn a_trigger_to_a_missing_list_is_not_answered() {
    let lm = rules();
    let mut state = session();
    assert!(say(&mut state, &lm, "bob", "ghost", at(START + 1800)).is_empty());
    assert_eq!(room(&state).last_message, at(START));
}

#[test]
fn a_multi_trigger_needs_all_of_its_parts() {
    let lm = rules();
    let cs = ChannelState::new("room", at(START));
    let low = |s: &str| -> Vec<char> { s.chars().collect() };
    let cpp_bad = &lm.multi_triggers[0];
    assert!(matches_multi(cpp_bad, "room", "bob", "cpp is bad", &low("cpp is bad")));
    assert!(!matches_multi(cpp_bad, "room", "bob", "cpp is good", &low("cpp is good")));
    assert!(matches_multi(cpp_bad, "room", "bob", "bad, that cpp", &low("bad, that cpp")));
    assert!(!matches_multi(cpp_bad, "room", "bob", "", &low("")));
    assert_eq!(cs.channel_name, "room");
}

#[test]
fn a_slot_is_filled_in_before_it_is_looked_for() {
    let lm = rules();
    let low = |s: &str| -> Vec<char> { s.chars().collect() };
    let user_rocks = &lm.multi_triggers[2];
    assert!(matches_multi(user_rocks, "room", "bob", "bob rocks", &low("bob rocks")));
    assert!(!matches_multi(user_rocks, "room", "eve", "bob rocks", &low("bob rocks")));
}

#[test]
fn the_last_multi_trigger_that_matches_wins() {
    let lm = rules();
    let low = |s: &str| -> Vec<char> { s.chars().collect() };
    assert_eq!(
        find_last_match(&lm.multi_triggers, "room", "bob", "cpp is bad", &low("cpp is bad")),
        Some(1)
    );
    assert_eq!(
        find_last_match(&lm.multi_triggers, "room", "bob", "cpp bad", &low("cpp bad")),
        Some(0)
    );
    assert_eq!(
        find_last_match(&lm.multi_triggers, "room", "bob", "fine", &low("fine")),
        None
    );
    let mut state = session();
    assert_eq!(
        say(&mut state, &lm, "bob", "this is bad and cpp_lang too", at(START + 1800)),
        vec!["second for is bad  ".to_string()]
    );
}

#[test]
fn a_word_that_is_answered_leaves_no_turn_to_the_multi_triggers() {
    let lm = rules();
    for _ in 0..20 {
        let mut state = session();
        let sent = say(&mut state, &lm, "bob", "this is bad and cpp too", at(START + 1800));
        assert_eq!(sent.len(), 1);
        assert!(sent[0] == "nice" || sent[0] == "neat");
    }
}

#[test]
fn the_trigger_text_of_a_multi_trigger_is_its_slots_joined() {
    let lm = rules();
    let mut cs = ChannelState::new("room", at(START));
    let mut outbox = Vec::new();
    respond_to_triggers(&mut cs, &mut outbox, &lm, "bob", "that is BAD", "that is bad", at(START + 1800));
    assert_eq!(outbox, vec!["second for is bad  ".to_string()]);
}

#[test]
fn triggers_answer_with_the_lower_case_form_that_they_are_given() {
    let lm = rules();
    let mut cs = ChannelState::new("room", at(START));
    let mut outbox = Vec::new();
    respond_to_triggers(&mut cs, &mut outbox, &lm, "bob", "HELLO", "HELLO", at(START + 1800));
    assert!(outbox.is_empty());
    respond_to_triggers(&mut cs, &mut outbox, &lm, "bob", "HELLO", "hello", at(START + 1800));
    assert_eq!(outbox, vec!["hi bob".to_string()]);
}

#[test]
fn dispatch_with_a_given_lower_case_form() {
    let lm = rules();
    let mut state = session();
    let mut outbox = Vec::new();
    let r = parse_command_with(
        &mut state,
        &mut outbox,
        &lm,
        "room",
        "bob",
        "!CONFIG xx 1 2",
        "!config cd 1 2",
        at(START + 1),
    );
    assert_eq!(r, Ok(()));
    assert!(outbox.is_empty());
    let r = parse_command_with(
        &mut state,
        &mut outbox,
        &lm,
        "room",
        "bob",
        "!config xx 1 2",
        "!config cd 1 2",
        at(START + 1),
    );
    assert_eq!(r, Ok(()));
    assert_eq!(outbox, vec!["successfully changed message cooldown to 1s-2s".to_string()]);
}

#[test]
fn a_chat_line_is_dispatched_and_the_mark_is_cleared() {
    let lm = rules();
    let mut state = session();
    let mut outbox = Vec::new();
    let event = Event::ChatLine {
        channel: "#room".to_string(),
        user: "bob".to_string(),
        text: "!repeat 2 hey".to_string(),
    };
    assert_eq!(handle_message(&mut state, &mut outbox, &lm, &event, at(START + 1)), Ok(()));
    assert_eq!(outbox, vec!["hey hey ".to_string()]);
    assert!(!room(&state).dedup_message);
    assert_eq!(room(&state).last_message, at(START + 1));
}

#[test]
fn other_events_are_passed_over() {
    let lm = rules();
    let mut state = session();
    let before = format!("{:?}", state);
    let mut outbox = Vec::new();
    assert_eq!(handle_message(&mut state, &mut outbox, &lm, &Event::Other, at(START + 1)), Ok(()));
    assert_eq!(
        handle_message_with(&mut state, &mut outbox, &lm, &Event::Other, "x", at(START + 1)),
        Ok(())
    );
    assert!(outbox.is_empty());
    assert_eq!(format!("{:?}", state), before);
}

#[test]
fn a_chat_line_from_an_unknown_channel_is_refused() {
    let lm = rules();
    let mut state = session();
    let mut outbox = Vec::new();
    for channel in ["#other", "room", ""] {
        let event = Event::ChatLine {
            channel: channel.to_string(),
            user: "bob".to_string(),
            text: "hello".to_string(),
        };
        assert_eq!(
            handle_message(&mut state, &mut outbox, &lm, &event, at(START + 1800)),
            Err(DispatchError::UnknownChannel)
        );
    }
    assert!(outbox.is_empty());
}

#[test]
fn triggers_answer_where_they_get_to() {
    let lm = rules();
    let mut state = session();
    let mut outbox = Vec::new();
    handle_triggers(&mut state, &mut outbox, &lm, "room", "bob", "Hello", at(START + 1800));
    assert_eq!(outbox, vec!["hi bob".to_string()]);
    assert_eq!(room(&state).last_message, at(START + 1800));
}

#[test]
fn triggers_keep_quiet_where_they_do_not_get_to() {
    let lm = rules();
    let mut state = session();
    state.ignore("bob");
    let before = format!("{:?}", state);
    let mut outbox = Vec::new();
    handle_triggers(&mut state, &mut outbox, &lm, "room", "bob", "hello", at(START + 1800));
    handle_triggers(&mut state, &mut outbox, &lm, "nowhere", "eve", "hello", at(START + 1800));
    assert!(outbox.is_empty());
    assert_eq!(format!("{:?}", state), before);
    state.set_mood("room", cynobot::channel::Mood::Backoff);
    handle_triggers_with(
        &mut state,
        &mut outbox,
        &lm,
        "room",
        "eve",
        "hello",
        "hello",
        at(START + 1800),
    );
    assert!(outbox.is_empty());
    state.set_mood("room", cynobot::channel::Mood::Normal);
    handle_triggers_with(
        &mut state,
        &mut outbox,
        &lm,
        "room",
        "eve",
        "hello",
        "hello",
        at(START + 1800),
    );
    assert_eq!(outbox, vec!["hi eve".to_string()]);
}

#[test]
fn a_line_touches_no_other_channel() {
    let lm = rules();
    let mut state = State::new(&vec!["room".to_string(), "other".to_string()], at(START));
    let other_before = format!("{:?}", state.channels[&State::chash("other")]);
    for line in ["!repeat 2 x", "!leave", "!offtopic", "hello", "!resetcd", "!config cd 1 2"] {
        say(&mut state, &lm, "bob", line, at(START + 2000));
    }
    assert_eq!(state.channels.len(), 2);
    assert_eq!(format!("{:?}", state.channels[&State::chash("other")]), other_before);
}

#[test]
fn a_key_with_a_capital_letter_never_matches() {
    let (_, triggers) = load_map("Hello=never", &Lists::new()).unwrap();
    let lm = ListsMaps::new(
        load_map("", &Lists::new()).unwrap().1,
        load_map("", &Lists::new()).unwrap().1,
        Lists::new(),
        Vec::new(),
        triggers,
    );
    let mut state = session();
    for line in ["Hello", "hello", "HELLO"] {
        assert!(say(&mut state, &lm, "bob", line, at(START + 5000)).is_empty());
    }
}

fn draws(picks: Vec<usize>, secs: u64) -> Draws {
    Draws { picks, draw: TimeSpan::from_secs(secs) }
}

fn scripted(
    state: &mut State,
    lm: &ListsMaps,
    data: &str,
    lower: &str,
    now: TimePoint,
    script: &Script,
) -> Vec<String> {
    let mut outbox = Vec::new();
    assert_eq!(
        parse_command_scripted(state, &mut outbox, lm, "room", "bob", data, lower, now, script),
        Ok(())
    );
    outbox
}

#[test]
fn a_script_decides_the_picks_of_a_trigger() {
    let lm = rules();
    for (pick, expected) in [(0, "nice"), (1, "neat"), (2, "nice"), (7, "neat")] {
        let mut state = session();
        let script = Script {
            picks: Vec::new(),
            choices: vec![draws(vec![], 0), draws(vec![], 0), draws(vec![pick], 1500)],
        };
        let sent = scripted(&mut state, &lm, "I like Rust", "i like rust", at(START + 1501), &script);
        assert_eq!(sent, vec![expected.to_string()]);
    }
}

#[test]
fn a_script_decides_the_wait_of_each_candidate() {
    let lm = rules();
    let mut state = session();
    let script = Script {
        picks: Vec::new(),
        choices: vec![draws(vec![], 1500), draws(vec![1], 1400), draws(vec![], 0)],
    };
    let sent = scripted(&mut state, &lm, "hello rust", "hello rust", at(START + 1500), &script);
    assert_eq!(sent, vec!["neat".to_string()]);
    assert_eq!(room(&state).last_message, at(START + 1500));
}

#[test]
fn a_script_that_is_too_short_stands_for_no_picks_and_no_wait() {
    let lm = rules();
    let mut state = session();
    let script = Script { picks: Vec::new(), choices: Vec::new() };
    let sent = scripted(&mut state, &lm, "rust hello", "rust hello", at(START + 1), &script);
    assert_eq!(sent, vec!["nice".to_string()]);
    assert_eq!(room(&state).last_message, at(START + 1));
}

#[test]
fn a_script_decides_the_picks_of_a_command() {
    let mut lists = Lists::new();
    lists.insert(
        "passive_advice".to_string(),
        vec!["a".to_string(), "b {praise}".to_string(), "c".to_string()],
    );
    lists.insert("praise".to_string(), vec!["nice".to_string(), "neat".to_string()]);
    let (_, commands) = load_map("!advice=RANDOM_STATEMENT\n!repeat=REPEAT", &lists).unwrap();
    let lm = ListsMaps::new(
        commands,
        load_map("", &lists).unwrap().1,
        lists,
        Vec::new(),
        load_map("", &Lists::new()).unwrap().1,
    );
    let cases: [(Vec<usize>, &str); 4] =
        [(vec![0], "a"), (vec![1, 1], "b neat"), (vec![4, 2], "b nice"), (vec![], "a")];
    for (picks, expected) in cases {
        let mut state = session();
        let script = Script { picks, choices: Vec::new() };
        let sent = scripted(&mut state, &lm, "!advice", "!advice", at(START + 1), &script);
        assert_eq!(sent, vec![expected.to_string()]);
    }
    let mut state = session();
    let script = Script { picks: vec![1], choices: Vec::new() };
    let sent = scripted(
        &mut state,
        &lm,
        "!repeat 2 {praise}",
        "!repeat 2 {praise}",
        at(START + 1),
        &script,
    );
    assert_eq!(sent, vec!["neat neat ".to_string()]);
}

#[test]
fn a_scripted_line_from_an_unknown_channel_is_refused() {
    let lm = rules();
    let mut state = session();
    let mut outbox = Vec::new();
    let script = Script { picks: Vec::new(), choices: Vec::new() };
    assert_eq!(
        parse_command_scripted(
            &mut state,
            &mut outbox,
            &lm,
            "nowhere",
            "bob",
            "hello",
            "hello",
            at(START + 5000),
            &script
        ),
        Err(DispatchError::UnknownChannel)
    );
    assert!(outbox.is_empty());
}
