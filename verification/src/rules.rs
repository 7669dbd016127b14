//! The rule compiler: reads `key=value` lines into a table of single
//! triggers and an ordered collection of multi-triggers.

use vstd::prelude::*;
use vstd::string::*;
use crate::lists::{bind, key_index, lookup, Lists};
use crate::split::{cut_first, lines, rows, split_first, split_lines, split_words, texts, words};
use crate::text::{
    find_char, find_from, from_chars, has_char, lemma_absent_char, lemma_has_char,
    lemma_replace_absent, replace, replace_all, same_text, slice, to_chars,
};

verus! {

/// What a rule answers with.
pub enum RuleValue {
    /// One item of the named list, picked at random and then used as a
    /// template.
    ListRef(Seq<char>),
    /// This template.
    Literal(Seq<char>),
}

/// The value of a rule: the name of a list to pick from, or a literal
/// template.
#[derive(Debug, PartialEq, Eq)]
pub enum MapValue {
    FileName(String),
    Value(String),
}

impl View for MapValue {
    type V = RuleValue;

    open spec fn view(&self) -> RuleValue {
        match self {
            MapValue::FileName(name) => RuleValue::ListRef(name@),
            MapValue::Value(text) => RuleValue::Literal(text@),
        }
    }
}

impl MapValue {
    /// A copy of the value.
    pub fn duplicate(&self) -> (r: MapValue)
        ensures
            r@ == self@,
    {
        match self {
            MapValue::FileName(name) => MapValue::FileName(name.clone()),
            MapValue::Value(text) => MapValue::Value(text.clone()),
        }
    }
}

/// A rule that asks for several parts of a message at once.
pub struct MultiRule {
    /// Four slots; the unused ones are empty and come last.
    pub slots: Seq<Seq<char>>,
    pub value: RuleValue,
}

/// A trigger of up to four parts, all of which a message must hold.
#[derive(Debug)]
pub struct MultiTrigger {
    pub triggers: [String; 4],
    pub value: MapValue,
}

impl View for MultiTrigger {
    type V = MultiRule;

    open spec fn view(&self) -> MultiRule {
        MultiRule { slots: texts(self.triggers@), value: self.value@ }
    }
}

/// The views of a vector of multi-triggers.
pub open spec fn multi_rules(v: Seq<MultiTrigger>) -> Seq<MultiRule> {
    Seq::new(v.len(), |i: int| v[i]@)
}

/// A table from keys to rule values. A key is bound once; the keys keep the
/// order in which they were first bound.
#[derive(Debug)]
pub struct Table {
    pub entries: Vec<(String, MapValue)>,
}

impl View for Table {
    type V = Seq<(Seq<char>, RuleValue)>;

    open spec fn view(&self) -> Self::V {
        Seq::new(self.entries@.len(), |i: int| (self.entries@[i].0@, self.entries@[i].1@))
    }
}

impl Table {
    /// The empty table.
    pub fn new() -> (r: Table)
        ensures
            r@ == Seq::<(Seq<char>, RuleValue)>::empty(),
    {
        let r = Table { entries: Vec::new() };
        assert(r@ =~= Seq::<(Seq<char>, RuleValue)>::empty());
        r
    }

    /// The number of keys.
    pub fn len(&self) -> (n: usize)
        ensures
            n == self@.len(),
    {
        self.entries.len()
    }

    /// The position of `key`, or the number of keys if it is not bound.
    pub fn position(&self, key: &str) -> (i: usize)
        ensures
            i as int == key_index(self@, key@, 0),
            i <= self.entries.len(),
    {
        let mut i: usize = 0;
        while i < self.entries.len()
            invariant
                i <= self.entries.len(),
                key_index(self@, key@, 0) == key_index(self@, key@, i as int),
            decreases self.entries.len() - i,
        {
            if same_text(self.entries[i].0.as_str(), key) {
                return i;
            }
            i += 1;
        }
        i
    }

    /// What `key` is bound to.
    pub fn get(&self, key: &str) -> (r: Option<&MapValue>)
        ensures
            match r {
                Some(value) => lookup(self@, key@) == Some(value@),
                None => lookup(self@, key@) is None,
            },
    {
        let i = self.position(key);
        if i < self.entries.len() {
            Some(&self.entries[i].1)
        } else {
            None
        }
    }

    /// Binds `key` to `value`, in place of what it was bound to before.
    pub fn insert(&mut self, key: String, value: MapValue)
        ensures
            final(self)@ == bind(old(self)@, key@, value@),
    {
        let i = self.position(key.as_str());
        let ghost before = self@;
        let ghost k = key@;
        let ghost v = value@;
        if i < self.entries.len() {
            self.entries.set(i, (key, value));
            assert(self@ =~= before.update(i as int, (k, v)));
        } else {
            self.entries.push((key, value));
            assert(self@ =~= before.push((k, v)));
        }
    }
}

/// The name by which the bot speaks of itself.
pub open spec fn bot_name() -> Seq<char> {
    "somewhatinaccurate"@
}

/// `s` with every `{me}` replaced by the bot's name.
pub open spec fn global_subst(s: Seq<char>) -> Seq<char> {
    replace_all(s, "{me}"@, bot_name())
}

/// A text without an opening brace is its own global substitution.
pub proof fn lemma_global_subst_plain(s: Seq<char>)
    requires
        !has_char(s, '{'),
    ensures
        global_subst(s) == s,
{
    reveal_strlit("{me}");
    lemma_has_char(s, '{');
    assert("{me}"@[0] == '{');
    assert("{me}"@.contains('{'));
    lemma_absent_char(s, "{me}"@, '{');
    lemma_replace_absent(s, "{me}"@, bot_name());
}

/// Replaces every `{me}` by the bot's name.
pub(crate) fn subst_global_chars(message: &Vec<char>) -> (r: Vec<char>)
    ensures
        r@ == global_subst(message@),
{
    let pat = to_chars("{me}");
    let to = to_chars("somewhatinaccurate");
    replace(message, &pat, &to)
}

/// Replaces every `{me}` in `message` by the bot's name.
pub fn subst_global(message: &str) -> (r: String)
    ensures
        r@ == global_subst(message@),
{
    let chars = to_chars(message);
    let out = subst_global_chars(&chars);
    from_chars(&out)
}

/// The name between a leading `[` and the first `]` after it; where no `]`
/// follows, the name runs to the end.
pub open spec fn bracket_name(s: Seq<char>) -> Seq<char> {
    let rest = s.skip(1);
    rest.take(find_from(rest, ']', 0))
}

/// What the right-hand side of a rule stands for: `[name]` is a reference to
/// the list `name`, anything else is a literal template.
pub open spec fn rule_value(value: Seq<char>) -> RuleValue {
    if value.len() > 0 && value[0] == '[' {
        RuleValue::ListRef(bracket_name(value))
    } else {
        RuleValue::Literal(value)
    }
}

/// The four slots of a multi-trigger made of the words `w`: the first four
/// words, then empty slots.
pub open spec fn slots_of(w: Seq<Seq<char>>) -> Seq<Seq<char>> {
    Seq::new(
        4,
        |i: int|
            if i < w.len() {
                w[i]
            } else {
                Seq::empty()
            },
    )
}

/// One compiled rule.
pub enum Entry {
    /// A key of the table with its value.
    Single(Seq<char>, RuleValue),
    /// A multi-trigger.
    Multi(MultiRule),
}

/// The rule that one key gives. A key with a space in it is a
/// multi-trigger of its words, and needs two words at least; any other key
/// is a key of the table as it stands, unless it holds an opening brace. A
/// key that gives no rule is dropped.
pub open spec fn key_entry(key: Seq<char>, value: RuleValue) -> Option<Entry> {
    if has_char(key, ' ') {
        if words(key).len() >= 2 {
            Some(Entry::Multi(MultiRule { slots: slots_of(words(key)), value }))
        } else {
            None
        }
    } else if has_char(key, '{') {
        None
    } else {
        Some(Entry::Single(key, value))
    }
}

/// The rules that the given keys give, in order.
pub open spec fn keys_entries(keys: Seq<Seq<char>>, value: RuleValue) -> Seq<Entry>
    decreases keys.len(),
{
    if keys.len() == 0 {
        Seq::empty()
    } else {
        match key_entry(keys.last(), value) {
            Some(e) => keys_entries(keys.drop_last(), value).push(e),
            None => keys_entries(keys.drop_last(), value),
        }
    }
}

/// The two sides of a line that states a rule: the line holds `=`, neither
/// side of the first `=` is empty, and the left side does not begin with
/// `-`. Any other line is a comment or is ignored.
pub open spec fn line_rule(line: Seq<char>) -> Option<(Seq<char>, Seq<char>)> {
    match split_first(line, '=') {
        Some((key, value)) => if key.len() > 0 && value.len() > 0 && key[0] != '-' {
            Some((key, value))
        } else {
            None
        },
        None => None,
    }
}

/// The keys that the left-hand side of a rule stands for: itself, or, for
/// `[name]`, every item of the list `name`. `Err` names a list that does
/// not exist.
pub open spec fn line_keys(key: Seq<char>, lists: Seq<(Seq<char>, Seq<Seq<char>>)>) -> Result<
    Seq<Seq<char>>,
    Seq<char>,
> {
    if key.len() > 0 && key[0] == '[' {
        match lookup(lists, bracket_name(key)) {
            Some(items) => Ok(items),
            None => Err(bracket_name(key)),
        }
    } else {
        Ok(seq![key])
    }
}

/// The rules that one line gives. `Err` names a list that the line refers
/// to on its left-hand side and that does not exist.
pub open spec fn line_entries(line: Seq<char>, lists: Seq<(Seq<char>, Seq<Seq<char>>)>) -> Result<
    Seq<Entry>,
    Seq<char>,
> {
    match line_rule(line) {
        None => Ok(Seq::empty()),
        Some((key, value)) => match line_keys(key, lists) {
            Ok(keys) => Ok(keys_entries(keys, rule_value(value))),
            Err(name) => Err(name),
        },
    }
}

/// What a rule compiler has read so far.
pub struct RuleSet {
    /// The multi-triggers, in the order of their declaration.
    pub multi: Seq<MultiRule>,
    /// The table of single keys.
    pub table: Seq<(Seq<char>, RuleValue)>,
}

/// The rule set with one more rule.
pub open spec fn add_entry(rs: RuleSet, e: Entry) -> RuleSet {
    match e {
        Entry::Single(key, value) => RuleSet { multi: rs.multi, table: bind(rs.table, key, value) },
        Entry::Multi(m) => RuleSet { multi: rs.multi.push(m), table: rs.table },
    }
}

/// The rule set with more rules, added in order.
pub open spec fn add_entries(rs: RuleSet, es: Seq<Entry>) -> RuleSet
    decreases es.len(),
{
    if es.len() == 0 {
        rs
    } else {
        add_entry(add_entries(rs, es.drop_last()), es.last())
    }
}

/// The rule set that the given lines compile to. `Err` names the list that
/// the first line with a missing list refers to.
pub open spec fn compile(ls: Seq<Seq<char>>, lists: Seq<(Seq<char>, Seq<Seq<char>>)>) -> Result<
    RuleSet,
    Seq<char>,
>
    decreases ls.len(),
{
    if ls.len() == 0 {
        Ok(RuleSet { multi: Seq::empty(), table: Seq::empty() })
    } else {
        match compile(ls.drop_last(), lists) {
            Err(name) => Err(name),
            Ok(rs) => match line_entries(ls.last(), lists) {
                Err(name) => Err(name),
                Ok(es) => Ok(add_entries(rs, es)),
            },
        }
    }
}

/// Why a rule source could not be compiled.
#[derive(Debug, PartialEq, Eq)]
pub enum LoadError {
    /// A left-hand side refers to a list of this name, and there is none.
    MissingList(String),
}

fn name_in_brackets(s: &Vec<char>) -> (r: Vec<char>)
    requires
        s.len() > 0,
    ensures
        r@ == bracket_name(s@),
{
    let rest = slice(s, 1, s.len());
    assert(rest@ =~= s@.skip(1));
    let n = find_char(&rest, ']', 0);
    let r = slice(&rest, 0, n);
    assert(r@ =~= rest@.take(n as int));
    r
}

fn value_of(value: &Vec<char>) -> (r: MapValue)
    ensures
        r@ == rule_value(value@),
{
    if value.len() > 0 && value[0] == '[' {
        let name = name_in_brackets(value);
        MapValue::FileName(from_chars(&name))
    } else {
        MapValue::Value(from_chars(value))
    }
}

fn slot(w: &Vec<Vec<char>>, i: usize) -> (r: String)
    requires
        i < 4,
    ensures
        r@ == slots_of(rows(w@))[i as int],
{
    if i < w.len() {
        from_chars(&w[i])
    } else {
        String::new()
    }
}

/// Adds the rule that `key` gives, if it gives one.
fn add_key(multi: &mut Vec<MultiTrigger>, table: &mut Table, key: &Vec<char>, value: &Vec<char>)
    ensures
        (RuleSet { multi: multi_rules(final(multi)@), table: final(table)@ }) == (match key_entry(
            key@,
            rule_value(value@),
        ) {
            Some(e) => add_entry(
                RuleSet { multi: multi_rules(old(multi)@), table: old(table)@ },
                e,
            ),
            None => RuleSet { multi: multi_rules(old(multi)@), table: old(table)@ },
        }),
{
    let ghost before = multi_rules(multi@);
    if find_char(key, ' ', 0) < key.len() {
        let w = split_words(key);
        if w.len() >= 2 {
            let triggers: [String; 4] = [slot(&w, 0), slot(&w, 1), slot(&w, 2), slot(&w, 3)];
            let trigger = MultiTrigger { triggers, value: value_of(value) };
            assert(trigger@.slots =~= slots_of(words(key@)));
            multi.push(trigger);
            assert(multi_rules(multi@) =~= before.push(trigger@));
        }
    } else if find_char(key, '{', 0) < key.len() {
    } else {
        let k = subst_global_chars(key);
        proof {
            lemma_global_subst_plain(key@);
        }
        table.insert(from_chars(&k), value_of(value));
    }
}

/// Compiles a rule source. Each line `key=value` states a rule, cut at its
/// first `=`; a line without `=`, with an empty side, or whose key begins
/// with `-` states none. A key `[name]` stands for every item of the list
/// `name`, and the load fails if there is no such list.
pub fn load_map(contents: &str, lists: &Lists) -> (r: Result<(Vec<MultiTrigger>, Table), LoadError>)
    ensures
        match r {
            Ok((multi, table)) => compile(lines(contents@), lists@) == Ok::<RuleSet, Seq<char>>(
                RuleSet { multi: multi_rules(multi@), table: table@ },
            ) && forall|i: int| 0 <= i < multi@.len() ==> well_formed(#[trigger] multi@[i]@),
            Err(LoadError::MissingList(name)) => compile(lines(contents@), lists@) == Err::<
                RuleSet,
                Seq<char>,
            >(name@),
        },
{
    let chars = to_chars(contents);
    let all = split_lines(&chars);
    let mut multi: Vec<MultiTrigger> = Vec::new();
    let mut table = Table::new();
    let mut i: usize = 0;
    assert(rows(all@).take(0) =~= Seq::<Seq<char>>::empty());
    assert(multi_rules(multi@) =~= Seq::<MultiRule>::empty());
    while i < all.len()
        invariant
            i <= all.len(),
            rows(all@) == lines(contents@),
            compile(rows(all@).take(i as int), lists@) == Ok::<RuleSet, Seq<char>>(
                RuleSet { multi: multi_rules(multi@), table: table@ },
            ),
        decreases all.len() - i,
    {
        let line = &all[i];
        let ghost done = RuleSet { multi: multi_rules(multi@), table: table@ };
        proof {
            assert(rows(all@).take(i + 1).drop_last() =~= rows(all@).take(i as int));
            assert(rows(all@).take(i + 1).last() == line@);
        }
        match cut_first(line, '=') {
            None => {},
            Some((meta_key, value)) => {
                if meta_key.len() > 0 && value.len() > 0 && meta_key[0] != '-' {
                    let mut keys: Vec<Vec<char>> = Vec::new();
                    if meta_key[0] == '[' {
                        let name = name_in_brackets(&meta_key);
                        let name_text = from_chars(&name);
                        match lists.get(name_text.as_str()) {
                            None => {
                                proof {
                                    assert(rows(all@)[i as int] == line@);
                                    assert(line_rule(line@) == Some((meta_key@, value@)));
                                    assert(line_keys(meta_key@, lists@) == Err::<
                                        Seq<Seq<char>>,
                                        Seq<char>,
                                    >(name@));
                                    assert(line_entries(line@, lists@) == Err::<
                                        Seq<Entry>,
                                        Seq<char>,
                                    >(name@));
                                    lemma_compile_fails(rows(all@), i as int, lists@);
                                }
                                return Err(LoadError::MissingList(name_text));
                            },
                            Some(items) => {
                                let mut j: usize = 0;
                                while j < items.len()
                                    invariant
                                        j <= items.len(),
                                        rows(keys@) == texts(items@).take(j as int),
                                    decreases items.len() - j,
                                {
                                    let ghost before = rows(keys@);
                                    let item = to_chars(items[j].as_str());
                                    keys.push(item);
                                    assert(rows(keys@) =~= before.push(items@[j as int]@));
                                    assert(texts(items@).take(j + 1) =~= texts(items@).take(
                                        j as int,
                                    ).push(items@[j as int]@));
                                    j += 1;
                                }
                                assert(texts(items@).take(items@.len() as int) =~= texts(items@));
                            },
                        }
                    } else {
                        let ghost k = meta_key@;
                        keys.push(meta_key);
                        assert(rows(keys@) =~= seq![k]);
                    }
                    let mut j: usize = 0;
                    assert(rows(keys@).take(0) =~= Seq::<Seq<char>>::empty());
                    while j < keys.len()
                        invariant
                            j <= keys.len(),
                            (RuleSet { multi: multi_rules(multi@), table: table@ }) == add_entries(
                                done,
                                keys_entries(rows(keys@).take(j as int), rule_value(value@)),
                            ),
                        decreases keys.len() - j,
                    {
                        proof {
                            assert(rows(keys@).take(j + 1).drop_last() =~= rows(keys@).take(
                                j as int,
                            ));
                            assert(rows(keys@).take(j + 1).last() == keys@[j as int]@);
                            let es = keys_entries(rows(keys@).take(j as int), rule_value(value@));
                            match key_entry(keys@[j as int]@, rule_value(value@)) {
                                Some(e) => {
                                    assert(es.push(e).drop_last() =~= es);
                                },
                                None => {},
                            }
                        }
                        add_key(&mut multi, &mut table, &keys[j], &value);
                        j += 1;
                    }
                    assert(rows(keys@).take(keys@.len() as int) =~= rows(keys@));
                }
            },
        }
        i += 1;
    }
    assert(rows(all@).take(all@.len() as int) =~= rows(all@));
    proof {
        let rs = RuleSet { multi: multi_rules(multi@), table: table@ };
        lemma_compile_well_formed(lines(contents@), lists@);
        assert(compile(lines(contents@), lists@) == Ok::<RuleSet, Seq<char>>(rs));
        assert(rules_well_formed(rs));
        assert forall|i: int| 0 <= i < multi@.len() implies well_formed(#[trigger] multi@[i]@) by {
            assert(well_formed(rs.multi[i]));
        }
    }
    Ok((multi, table))
}

/// Once a line fails, the whole source fails with the same name.
proof fn lemma_compile_fails(ls: Seq<Seq<char>>, i: int, lists: Seq<(Seq<char>, Seq<Seq<char>>)>)
    requires
        0 <= i < ls.len(),
        compile(ls.take(i), lists) is Ok,
        line_entries(ls[i], lists) is Err,
    ensures
        compile(ls, lists) == Err::<RuleSet, Seq<char>>(line_entries(ls[i], lists)->Err_0),
    decreases ls.len() - i,
{
    assert(ls.take(i + 1).drop_last() =~= ls.take(i));
    assert(ls.take(i + 1).last() == ls[i]);
    lemma_compile_stays_failed(ls, i + 1, lists);
}

proof fn lemma_compile_stays_failed(
    ls: Seq<Seq<char>>,
    k: int,
    lists: Seq<(Seq<char>, Seq<Seq<char>>)>,
)
    requires
        0 <= k <= ls.len(),
        compile(ls.take(k), lists) is Err,
    ensures
        compile(ls, lists) == compile(ls.take(k), lists),
    decreases ls.len() - k,
{
    if k < ls.len() {
        assert(ls.take(k + 1).drop_last() =~= ls.take(k));
        lemma_compile_stays_failed(ls, k + 1, lists);
    } else {
        assert(ls.take(k) =~= ls);
    }
}

/// Whether a key gives a rule: with a space in it, it has two words at
/// least; without one, it holds no opening brace.
pub open spec fn usable_key(key: Seq<char>) -> bool {
    if has_char(key, ' ') {
        words(key).len() >= 2
    } else {
        !has_char(key, '{')
    }
}

/// Keys that all give a rule give one rule each, in order.
pub proof fn lemma_keys_entries(keys: Seq<Seq<char>>, value: RuleValue)
    ensures
        keys_entries(keys, value).len() <= keys.len(),
        (forall|i: int| 0 <= i < keys.len() ==> usable_key(#[trigger] keys[i])) ==> {
            &&& keys_entries(keys, value).len() == keys.len()
            &&& forall|i: int|
                0 <= i < keys.len() ==> Some(#[trigger] keys_entries(keys, value)[i]) == key_entry(
                    keys[i],
                    value,
                )
        },
    decreases keys.len(),
{
    if keys.len() > 0 {
        let rest = keys.drop_last();
        lemma_keys_entries(rest, value);
        if forall|i: int| 0 <= i < keys.len() ==> usable_key(#[trigger] keys[i]) {
            assert forall|i: int| 0 <= i < rest.len() implies usable_key(#[trigger] rest[i]) by {
                assert(rest[i] == keys[i]);
            }
            assert(usable_key(keys[keys.len() - 1]));
            assert forall|i: int| 0 <= i < keys.len() implies Some(
                #[trigger] keys_entries(keys, value)[i],
            ) == key_entry(keys[i], value) by {
                if i < rest.len() {
                    assert(keys_entries(keys, value)[i] == keys_entries(rest, value)[i]);
                    assert(rest[i] == keys[i]);
                }
            }
        }
    }
}

/// A line that states a rule gives exactly one entry, or one for each item
/// of the list that its key names, provided that each key gives a rule; a
/// line that states none gives no entry.
pub proof fn lemma_line_entries(line: Seq<char>, lists: Seq<(Seq<char>, Seq<Seq<char>>)>)
    ensures
        line_rule(line) is None ==> line_entries(line, lists) == Ok::<Seq<Entry>, Seq<char>>(
            Seq::empty(),
        ),
        line_rule(line) matches Some((key, value)) ==> {
            &&& key[0] != '[' && usable_key(key) ==> line_entries(line, lists) is Ok
                && line_entries(line, lists)->Ok_0.len() == 1 && Some(
                line_entries(line, lists)->Ok_0[0],
            ) == key_entry(key, rule_value(value))
            &&& key[0] != '[' && !usable_key(key) ==> line_entries(line, lists) == Ok::<
                Seq<Entry>,
                Seq<char>,
            >(Seq::empty())
            &&& key[0] == '[' ==> match lookup(lists, bracket_name(key)) {
                Some(items) => line_entries(line, lists) is Ok && line_entries(
                    line,
                    lists,
                )->Ok_0.len() <= items.len() && ((forall|i: int|
                    0 <= i < items.len() ==> usable_key(#[trigger] items[i])) ==> line_entries(
                    line,
                    lists,
                )->Ok_0.len() == items.len()),
                None => line_entries(line, lists) == Err::<Seq<Entry>, Seq<char>>(
                    bracket_name(key),
                ),
            }
        },
{
    match line_rule(line) {
        None => {},
        Some((key, value)) => {
            if key[0] != '[' {
                let keys = seq![key];
                assert(keys.drop_last() =~= Seq::<Seq<char>>::empty());
                assert(keys.last() == key);
                assert(keys_entries(keys.drop_last(), rule_value(value)) =~= Seq::<Entry>::empty());
            } else {
                match lookup(lists, bracket_name(key)) {
                    Some(items) => {
                        lemma_keys_entries(items, rule_value(value));
                    },
                    None => {},
                }
            }
        },
    }
}

/// Whether the empty slots come last.
pub open spec fn packed(slots: Seq<Seq<char>>) -> bool {
    forall|i: int, j: int|
        0 <= i < j < slots.len() && (#[trigger] slots[i]).len() == 0 ==> (#[trigger] slots[j]).len()
            == 0
}

/// Whether a multi-trigger is as the compiler makes them: four slots, the
/// first two not empty, and the empty ones last.
pub open spec fn well_formed(m: MultiRule) -> bool {
    &&& m.slots.len() == 4
    &&& m.slots[0].len() > 0
    &&& m.slots[1].len() > 0
    &&& packed(m.slots)
}

/// Whether every multi-trigger among the entries is well formed.
pub open spec fn entries_well_formed(es: Seq<Entry>) -> bool {
    forall|i: int|
        0 <= i < es.len() ==> ((#[trigger] es[i]) matches Entry::Multi(m) ==> well_formed(m))
}

/// Whether every multi-trigger of a rule set is well formed.
pub open spec fn rules_well_formed(rs: RuleSet) -> bool {
    forall|i: int| 0 <= i < rs.multi.len() ==> well_formed(#[trigger] rs.multi[i])
}

proof fn lemma_key_entry_well_formed(key: Seq<char>, value: RuleValue)
    ensures
        key_entry(key, value) matches Some(Entry::Multi(m)) ==> well_formed(m),
{
    if has_char(key, ' ') && words(key).len() >= 2 {
        crate::split::lemma_words_from(key, 0);
        let w = words(key);
        assert(w[0].len() > 0);
        assert(w[1].len() > 0);
        let slots = slots_of(w);
        assert forall|i: int, j: int|
            0 <= i < j < slots.len() && (#[trigger] slots[i]).len() == 0 implies (
        #[trigger] slots[j]).len() == 0 by {
            if i < w.len() {
                assert(w[i].len() > 0);
            }
        }
    }
}

proof fn lemma_keys_entries_well_formed(keys: Seq<Seq<char>>, value: RuleValue)
    ensures
        entries_well_formed(keys_entries(keys, value)),
    decreases keys.len(),
{
    if keys.len() > 0 {
        lemma_keys_entries_well_formed(keys.drop_last(), value);
        lemma_key_entry_well_formed(keys.last(), value);
    }
}

proof fn lemma_add_entries_well_formed(rs: RuleSet, es: Seq<Entry>)
    requires
        rules_well_formed(rs),
        entries_well_formed(es),
    ensures
        rules_well_formed(add_entries(rs, es)),
    decreases es.len(),
{
    if es.len() > 0 {
        assert forall|i: int| 0 <= i < es.drop_last().len() implies ((
        #[trigger] es.drop_last()[i]) matches Entry::Multi(m) ==> well_formed(m)) by {
            assert(es.drop_last()[i] == es[i]);
        }
        lemma_add_entries_well_formed(rs, es.drop_last());
        assert(es.last() == es[es.len() - 1]);
    }
}

/// Every multi-trigger that the compiler makes has two slots at least that
/// are not empty, and its empty slots come last.
pub proof fn lemma_compile_well_formed(
    ls: Seq<Seq<char>>,
    lists: Seq<(Seq<char>, Seq<Seq<char>>)>,
)
    ensures
        compile(ls, lists) matches Ok(rs) ==> rules_well_formed(rs),
    decreases ls.len(),
{
    if ls.len() > 0 {
        lemma_compile_well_formed(ls.drop_last(), lists);
        match compile(ls.drop_last(), lists) {
            Ok(rs) => {
                match line_rule(ls.last()) {
                    Some((key, value)) => {
                        match line_keys(key, lists) {
                            Ok(keys) => {
                                lemma_keys_entries_well_formed(keys, rule_value(value));
                                lemma_add_entries_well_formed(
                                    rs,
                                    keys_entries(keys, rule_value(value)),
                                );
                            },
                            Err(_) => {},
                        }
                    },
                    None => {
                        lemma_add_entries_well_formed(rs, Seq::empty());
                    },
                }
            },
            Err(_) => {},
        }
    }
}

} // verus!

verus! {

/// Everything the dispatcher looks things up in.
#[derive(Debug)]
pub struct ListsMaps {
    /// From the first word of a message to an operation.
    pub commands: Table,
    /// From a whole message to a canned response.
    pub command_text: Table,
    pub lists: Lists,
    pub multi_triggers: Vec<MultiTrigger>,
    /// From a word of a message to a response.
    pub triggers: Table,
}

/// The rule set of a bot, with its texts as character sequences.
pub struct RulesView {
    pub commands: Seq<(Seq<char>, RuleValue)>,
    pub command_text: Seq<(Seq<char>, RuleValue)>,
    pub lists: Seq<(Seq<char>, Seq<Seq<char>>)>,
    pub multi_triggers: Seq<MultiRule>,
    pub triggers: Seq<(Seq<char>, RuleValue)>,
}

impl View for ListsMaps {
    type V = RulesView;

    open spec fn view(&self) -> RulesView {
        RulesView {
            commands: self.commands@,
            command_text: self.command_text@,
            lists: self.lists@,
            multi_triggers: multi_rules(self.multi_triggers@),
            triggers: self.triggers@,
        }
    }
}

impl ListsMaps {
    /// Puts the compiled tables and the lists together.
    pub fn new(
        commands: Table,
        command_text: Table,
        lists: Lists,
        multi_triggers: Vec<MultiTrigger>,
        triggers: Table,
    ) -> (r: ListsMaps)
        ensures
            r@ == (RulesView {
                commands: commands@,
                command_text: command_text@,
                lists: lists@,
                multi_triggers: multi_rules(multi_triggers@),
                triggers: triggers@,
            }),
    {
        ListsMaps { commands, command_text, lists, multi_triggers, triggers }
    }
}

} // verus!
