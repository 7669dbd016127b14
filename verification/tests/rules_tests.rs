use cynobot::lists::{parse_list, Lists};
use cynobot::rules::{load_map, subst_global, ListsMaps, LoadError, MapValue, Table};

fn lists() -> Lists {
    let mut lists = Lists::new();
    lists.insert("langs".to_string(), vec!["cpp".to_string(), "rust".to_string()]);
    lists.insert("empty".to_string(), Vec::new());
    lists
}

fn keys(table: &Table) -> Vec<String> {
    table.entries.iter().map(|e| e.0.clone()).collect()
}

#[test]
fn parse_list_skips_comments_and_empty_lines() {
    let items = parse_list("alpha\n\n-comment\nbeta\r\ngamma");
    assert_eq!(items, vec!["alpha".to_string(), "beta".to_string(), "gamma".to_string()]);
}

#[test]
fn parse_list_of_nothing_is_empty() {
    assert_eq!(parse_list(""), Vec::<String>::new());
    assert_eq!(parse_list("-only a comment\n\n"), Vec::<String>::new());
}

#[test]
fn parse_list_keeps_lines_that_hold_a_dash_later() {
    assert_eq!(parse_list("a-b\n -c"), vec!["a-b".to_string(), " -c".to_string()]);
}

#[test]
fn lists_bind_and_find() {
    let mut l = lists();
    assert_eq!(l.get("langs"), Some(&vec!["cpp".to_string(), "rust".to_string()]));
    assert_eq!(l.get("nope"), None);
    assert_eq!(l.position("empty"), 1);
    assert_eq!(l.position("nope"), 2);
    l.insert("langs".to_string(), vec!["go".to_string()]);
    assert_eq!(l.get("langs"), Some(&vec!["go".to_string()]));
    assert_eq!(l.entries.len(), 2);
}

#[test]
fn table_binds_a_key_once_and_keeps_its_place() {
    let mut t = Table::new();
    t.insert("a".to_string(), MapValue::Value("1".to_string()));
    t.insert("b".to_string(), MapValue::Value("2".to_string()));
    t.insert("a".to_string(), MapValue::FileName("f".to_string()));
    assert_eq!(t.len(), 2);
    assert_eq!(keys(&t), vec!["a".to_string(), "b".to_string()]);
    assert_eq!(t.get("a"), Some(&MapValue::FileName("f".to_string())));
    assert_eq!(t.get("c"), None);
    assert_eq!(t.position("b"), 1);
}

#[test]
fn map_value_duplicate_is_equal() {
    let v = MapValue::Value("x".to_string());
    assert_eq!(v.duplicate(), v);
}

#[test]
fn subst_global_replaces_me() {
    assert_eq!(subst_global("I am {me}, {me}!"), "I am somewhatinaccurate, somewhatinaccurate!");
    assert_eq!(subst_global("no placeholder"), "no placeholder");
    assert_eq!(subst_global("{you}"), "{you}");
}

#[test]
fn one_line_gives_one_entry() {
    let (multi, table) = load_map("hello=hi there", &lists()).unwrap();
    assert_eq!(multi.len(), 0);
    assert_eq!(table.len(), 1);
    assert_eq!(table.get("hello"), Some(&MapValue::Value("hi there".to_string())));
}

#[test]
fn lines_that_state_no_rule_give_no_entry() {
    for src in ["", "no equals sign", "=value", "key=", "-key=value", "\n\n"] {
        let (multi, table) = load_map(src, &lists()).unwrap();
        assert_eq!(multi.len(), 0, "{:?}", src);
        assert_eq!(table.len(), 0, "{:?}", src);
    }
}

#[test]
fn only_the_first_equals_sign_cuts_the_line() {
    let (_, table) = load_map("a=b=c", &lists()).unwrap();
    assert_eq!(table.get("a"), Some(&MapValue::Value("b=c".to_string())));
}

#[test]
fn a_value_in_brackets_refers_to_a_list() {
    let (_, table) = load_map("hi=[langs]\nho=[langs\nhu=[]", &lists()).unwrap();
    assert_eq!(table.get("hi"), Some(&MapValue::FileName("langs".to_string())));
    assert_eq!(table.get("ho"), Some(&MapValue::FileName("langs".to_string())));
    assert_eq!(table.get("hu"), Some(&MapValue::FileName("".to_string())));
}

#[test]
fn a_key_in_brackets_fans_out_over_the_list() {
    let (multi, table) = load_map("[langs]=nice", &lists()).unwrap();
    assert_eq!(multi.len(), 0);
    assert_eq!(keys(&table), vec!["cpp".to_string(), "rust".to_string()]);
    assert_eq!(table.get("rust"), Some(&MapValue::Value("nice".to_string())));
    let (_, none) = load_map("[empty]=nice", &lists()).unwrap();
    assert_eq!(none.len(), 0);
}

#[test]
fn a_missing_list_aborts_the_load() {
    let r = load_map("a=b\n[nope]=x\n[other]=y", &lists());
    assert_eq!(r.err(), Some(LoadError::MissingList("nope".to_string())));
}

#[test]
fn a_key_with_a_brace_is_dropped() {
    let (multi, table) = load_map("{me}=x\nok=y", &lists()).unwrap();
    assert_eq!(multi.len(), 0);
    assert_eq!(keys(&table), vec!["ok".to_string()]);
}

#[test]
fn a_key_with_a_space_is_a_multi_trigger() {
    let (multi, table) = load_map("cpp bad=no u\na b c d e=five", &lists()).unwrap();
    assert_eq!(table.len(), 0);
    assert_eq!(multi.len(), 2);
    assert_eq!(
        multi[0].triggers,
        ["cpp".to_string(), "bad".to_string(), "".to_string(), "".to_string()]
    );
    assert_eq!(multi[0].value, MapValue::Value("no u".to_string()));
    assert_eq!(
        multi[1].triggers,
        ["a".to_string(), "b".to_string(), "c".to_string(), "d".to_string()]
    );
}

#[test]
fn a_multi_trigger_needs_two_words() {
    let (multi, table) = load_map("cpp =x\n  =y\n a  b =z", &lists()).unwrap();
    assert_eq!(table.len(), 0);
    assert_eq!(multi.len(), 1);
    assert_eq!(
        multi[0].triggers,
        ["a".to_string(), "b".to_string(), "".to_string(), "".to_string()]
    );
}

#[test]
fn a_later_line_rebinds_a_key() {
    let (_, table) = load_map("a=1\nb=2\na=3", &lists()).unwrap();
    assert_eq!(keys(&table), vec!["a".to_string(), "b".to_string()]);
    assert_eq!(table.get("a"), Some(&MapValue::Value("3".to_string())));
}

#[test]
fn keys_keep_their_case() {
    let (_, table) = load_map("Hello=x", &lists()).unwrap();
    assert_eq!(table.get("Hello"), Some(&MapValue::Value("x".to_string())));
    assert_eq!(table.get("hello"), None);
}

#[test]
fn lists_maps_holds_what_it_is_given() {
    let (multi, triggers) = load_map("a=1\nb c=2", &lists()).unwrap();
    let (_, commands) = load_map("!x=LEAVE", &lists()).unwrap();
    let (_, command_text) = load_map("!help=ask", &lists()).unwrap();
    let lm = ListsMaps::new(commands, command_text, lists(), multi, triggers);
    assert_eq!(lm.commands.len(), 1);
    assert_eq!(lm.command_text.len(), 1);
    assert_eq!(lm.triggers.len(), 1);
    assert_eq!(lm.multi_triggers.len(), 1);
    assert_eq!(lm.lists.entries.len(), 2);
}
