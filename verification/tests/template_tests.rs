use cynobot::channel::ChannelState;
use cynobot::clock::TimePoint;
use cynobot::lists::Lists;
use cynobot::rules::{ListsMaps, MapValue, Table};
use cynobot::template::{
    make_response, make_response_message, make_response_picked, subst_context,
    substitute_picked, substitute_random, ReplyContext, SubLocations,
};

fn rules() -> ListsMaps {
    let mut lists = Lists::new();
    lists.insert(
        "greetings".to_string(),
        vec!["hello".to_string(), "hi".to_string(), "hey {user}".to_string()],
    );
    lists.insert("foods".to_string(), vec!["pie".to_string(), "{greetings} cake".to_string()]);
    lists.insert("nothing".to_string(), Vec::new());
    ListsMaps::new(Table::new(), Table::new(), lists, Vec::new(), Table::new())
}

fn channel() -> ChannelState {
    ChannelState::new("room", TimePoint { nanos: 5 })
}

fn context() -> ReplyContext<'static> {
    ReplyContext { user: "bob", trigger: "cpp", trigger_message: "CPP is bad" }
}

fn spans(s: &str) -> Vec<String> {
    let data: Vec<char> = s.chars().collect();
    let mut locs = SubLocations::new(&data);
    let mut out = Vec::new();
    while let Some(span) = locs.next() {
        out.push(span.iter().collect());
    }
    out
}

#[test]
fn spans_are_found_from_left_to_right() {
    assert_eq!(spans("a {x} b {yz}{} c"), vec!["{x}", "{yz}", "{}"]);
    assert_eq!(spans("no braces"), Vec::<String>::new());
    assert_eq!(spans("open { only"), Vec::<String>::new());
    assert_eq!(spans("} {a} {"), vec!["{a}"]);
    assert_eq!(spans("{a{b}c}"), vec!["{a{b}"]);
    assert_eq!(spans(""), Vec::<String>::new());
}

#[test]
fn a_template_without_placeholder_is_unchanged() {
    let lm = rules();
    for t in ["plain text", "", "{unknown} stays", "{} too", "a } b { c", "{nothing}"] {
        assert_eq!(substitute_random(&lm, t), t);
        assert_eq!(substitute_picked(&lm, t, &vec![1, 2, 3]), t);
        assert_eq!(make_response_message(&channel(), &lm, &context(), t), t);
    }
}

#[test]
fn a_known_span_takes_the_picked_item() {
    let lm = rules();
    assert_eq!(substitute_picked(&lm, "{greetings} bob", &vec![0]), "hello bob");
    assert_eq!(substitute_picked(&lm, "{greetings} bob", &vec![1]), "hi bob");
    assert_eq!(substitute_picked(&lm, "{greetings} bob", &vec![4]), "hi bob");
    assert_eq!(substitute_picked(&lm, "{greetings} bob", &vec![]), "hello bob");
}

#[test]
fn picks_go_by_the_index_of_the_span() {
    let lm = rules();
    assert_eq!(
        substitute_picked(&lm, "{x} {greetings} {foods}", &vec![9, 1, 0]),
        "{x} hi pie"
    );
}

#[test]
fn every_occurrence_of_a_span_takes_the_same_item() {
    let lm = rules();
    assert_eq!(substitute_picked(&lm, "{greetings} and {greetings}", &vec![1, 0]), "hi and hi");
}

#[test]
fn text_that_a_pick_brings_in_is_not_scanned_for_spans() {
    let lm = rules();
    assert_eq!(substitute_picked(&lm, "{foods}", &vec![1]), "{greetings} cake");
}

#[test]
fn a_later_span_is_replaced_in_text_that_an_earlier_pick_brought_in() {
    let lm = rules();
    assert_eq!(substitute_picked(&lm, "{foods} {greetings}", &vec![1, 0]), "hello cake hello");
}

#[test]
fn a_random_pick_is_an_item_of_the_list() {
    let lm = rules();
    for _ in 0..50 {
        let r = substitute_random(&lm, "say {greetings}!");
        assert!(
            r == "say hello!" || r == "say hi!" || r == "say hey {user}!",
            "unexpected {:?}",
            r
        );
        assert!(!r.contains("{greetings}"));
    }
}

#[test]
fn context_substitution_fills_in_the_message() {
    let cs = channel();
    assert_eq!(
        subst_context(&cs, &context(), "{user} said {trigger} in {channel}: {trigger_message}"),
        "bob said cpp in room: CPP is bad"
    );
    assert_eq!(subst_context(&cs, &context(), "{me} here"), "somewhatinaccurate here");
    assert_eq!(subst_context(&cs, &context(), "nothing to do"), "nothing to do");
    assert_eq!(subst_context(&cs, &context(), "{other}"), "{other}");
}

#[test]
fn context_substitution_goes_on_in_what_it_filled_in() {
    let cs = channel();
    let context = ReplyContext { user: "bob", trigger: "{user}", trigger_message: "{channel}" };
    assert_eq!(subst_context(&cs, &context, "{trigger} {trigger_message}"), "bob room");
}

#[test]
fn a_literal_is_rendered() {
    let lm = rules();
    let cs = channel();
    let v = MapValue::Value("{greetings}, {user}".to_string());
    assert_eq!(
        make_response_picked(&cs, &lm, &context(), &v, &vec![2]),
        Some("hey bob, bob".to_string())
    );
}

#[test]
fn a_list_reference_picks_and_renders() {
    let lm = rules();
    let cs = channel();
    let v = MapValue::FileName("foods".to_string());
    assert_eq!(
        make_response_picked(&cs, &lm, &context(), &v, &vec![0]),
        Some("pie".to_string())
    );
    assert_eq!(
        make_response_picked(&cs, &lm, &context(), &v, &vec![1, 2]),
        Some("hey bob cake".to_string())
    );
    assert_eq!(
        make_response_picked(&cs, &lm, &context(), &v, &vec![3]),
        Some("hello cake".to_string())
    );
}

#[test]
fn a_list_that_is_missing_or_empty_gives_no_response() {
    let lm = rules();
    let cs = channel();
    let missing = MapValue::FileName("nope".to_string());
    let empty = MapValue::FileName("nothing".to_string());
    assert_eq!(make_response_picked(&cs, &lm, &context(), &missing, &vec![0]), None);
    assert_eq!(make_response_picked(&cs, &lm, &context(), &empty, &vec![0]), None);
    assert_eq!(make_response(&cs, &lm, &context(), &missing), None);
    assert_eq!(make_response(&cs, &lm, &context(), &empty), None);
}

#[test]
fn a_random_response_is_one_of_the_renderings() {
    let lm = rules();
    let cs = channel();
    let v = MapValue::FileName("greetings".to_string());
    for _ in 0..50 {
        let r = make_response(&cs, &lm, &context(), &v).unwrap();
        assert!(r == "hello" || r == "hi" || r == "hey bob", "unexpected {:?}", r);
    }
}
