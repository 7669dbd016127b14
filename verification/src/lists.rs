//! Named lists: ordered pools of texts, each read from one source and
//! found again by its name.

use vstd::prelude::*;
use vstd::string::*;
use crate::split::{lines, rows, split_lines, texts};
use crate::text::{from_chars, same_text, to_chars};

verus! {

/// Whether a line of a list source is an entry: it is not empty and does
/// not begin with `-`, which marks a comment.
pub open spec fn is_entry(line: Seq<char>) -> bool {
    line.len() > 0 && line[0] != '-'
}

/// The entries among the given lines, in order.
pub open spec fn entries(ls: Seq<Seq<char>>) -> Seq<Seq<char>>
    decreases ls.len(),
{
    if ls.len() == 0 {
        Seq::empty()
    } else if is_entry(ls.last()) {
        entries(ls.drop_last()).push(ls.last())
    } else {
        entries(ls.drop_last())
    }
}

/// The items of the list that a source text holds.
pub open spec fn list_of(contents: Seq<char>) -> Seq<Seq<char>> {
    entries(lines(contents))
}

/// Every entry is one of the lines and is not empty.
pub proof fn lemma_entries(ls: Seq<Seq<char>>)
    ensures
        entries(ls).len() <= ls.len(),
        forall|i: int|
            0 <= i < entries(ls).len() ==> is_entry(#[trigger] entries(ls)[i]) && ls.contains(
                entries(ls)[i],
            ),
    decreases ls.len(),
{
    if ls.len() > 0 {
        lemma_entries(ls.drop_last());
        assert forall|i: int| 0 <= i < entries(ls).len() implies is_entry(
            #[trigger] entries(ls)[i],
        ) && ls.contains(entries(ls)[i]) by {
            if i < entries(ls.drop_last()).len() {
                let e = entries(ls.drop_last())[i];
                assert(ls.drop_last().contains(e));
                let j = choose|j: int| 0 <= j < ls.drop_last().len() && ls.drop_last()[j] == e;
                assert(ls[j] == e);
            } else {
                assert(ls[ls.len() - 1] == ls.last());
            }
        }
    }
}

/// Reads a list source: one item per line, without the empty lines and the
/// comments.
pub fn parse_list(contents: &str) -> (data: Vec<String>)
    ensures
        texts(data@) == list_of(contents@),
{
    let chars = to_chars(contents);
    let all = split_lines(&chars);
    let mut data: Vec<String> = Vec::new();
    let mut i: usize = 0;
    assert(rows(all@).take(0) =~= Seq::<Seq<char>>::empty());
    assert(texts(data@) =~= Seq::<Seq<char>>::empty());
    while i < all.len()
        invariant
            i <= all.len(),
            texts(data@) == entries(rows(all@).take(i as int)),
        decreases all.len() - i,
    {
        let line = &all[i];
        proof {
            assert(rows(all@).take(i + 1).drop_last() =~= rows(all@).take(i as int));
            assert(rows(all@).take(i + 1).last() == line@);
        }
        if line.len() > 0 && line[0] != '-' {
            let ghost before = texts(data@);
            let item = from_chars(line);
            data.push(item);
            assert(texts(data@) =~= before.push(line@));
        }
        i += 1;
    }
    assert(rows(all@).take(all@.len() as int) =~= rows(all@));
    data
}

/// The position of the first pair with the given key at or after `from`,
/// or the length if there is none.
pub open spec fn key_index<V>(s: Seq<(Seq<char>, V)>, key: Seq<char>, from: int) -> int
    decreases s.len() - from,
{
    if from < 0 || from >= s.len() {
        s.len() as int
    } else if s[from].0 == key {
        from
    } else {
        key_index(s, key, from + 1)
    }
}

/// `key_index` stops on the first pair with the key, or at the end.
pub proof fn lemma_key_index<V>(s: Seq<(Seq<char>, V)>, key: Seq<char>, from: int)
    requires
        0 <= from <= s.len(),
    ensures
        from <= key_index(s, key, from) <= s.len(),
        key_index(s, key, from) < s.len() ==> s[key_index(s, key, from)].0 == key,
        forall|k: int| from <= k < key_index(s, key, from) ==> (#[trigger] s[k]).0 != key,
    decreases s.len() - from,
{
    if from < s.len() && s[from].0 != key {
        lemma_key_index(s, key, from + 1);
    }
}

/// What the key is bound to: the value of the first pair with that key.
pub open spec fn lookup<V>(s: Seq<(Seq<char>, V)>, key: Seq<char>) -> Option<V> {
    let i = key_index(s, key, 0);
    if 0 <= i < s.len() {
        Some(s[i].1)
    } else {
        None
    }
}

/// The pairs after binding `key` to `value`: the pair with that key gets
/// the new value and keeps its place; a new key goes to the end.
pub open spec fn bind<V>(s: Seq<(Seq<char>, V)>, key: Seq<char>, value: V) -> Seq<
    (Seq<char>, V),
> {
    let i = key_index(s, key, 0);
    if 0 <= i < s.len() {
        s.update(i, (key, value))
    } else {
        s.push((key, value))
    }
}

/// A key is bound to what it was last bound to, and binding it leaves the
/// other keys alone.
pub proof fn lemma_bind<V>(s: Seq<(Seq<char>, V)>, key: Seq<char>, value: V, other: Seq<char>)
    ensures
        lookup(bind(s, key, value), other) == if other == key {
            Some(value)
        } else {
            lookup(s, other)
        },
{
    let t = bind(s, key, value);
    let i = key_index(s, key, 0);
    lemma_key_index(s, key, 0);
    lemma_key_index(s, other, 0);
    lemma_key_index(t, other, 0);
    let a = key_index(s, other, 0);
    let b = key_index(t, other, 0);
    if other == key {
        if i < s.len() {
            assert(t[i].0 == key);
            if b < i {
                assert(s[b].0 == t[b].0);
            }
        } else {
            assert(t[s.len() as int].0 == key);
            if b < s.len() {
                assert(s[b].0 == t[b].0);
            }
        }
    } else {
        if a < s.len() {
            assert(t[a] == s[a]);
            if b < a {
                assert(t[b].0 == s[b].0);
            }
        } else {
            if b < t.len() {
                if b < s.len() {
                    assert(t[b].0 == s[b].0);
                }
            }
        }
    }
}

/// A list with its name.
#[derive(Debug)]
pub struct NamedList {
    pub name: String,
    pub items: Vec<String>,
}

/// The named lists that rules and templates refer to.
#[derive(Debug)]
pub struct Lists {
    pub entries: Vec<NamedList>,
}

impl View for Lists {
    type V = Seq<(Seq<char>, Seq<Seq<char>>)>;

    open spec fn view(&self) -> Self::V {
        Seq::new(
            self.entries@.len(),
            |i: int| (self.entries@[i].name@, texts(self.entries@[i].items@)),
        )
    }
}

impl Lists {
    /// No lists.
    pub fn new() -> (r: Lists)
        ensures
            r@ == Seq::<(Seq<char>, Seq<Seq<char>>)>::empty(),
    {
        let r = Lists { entries: Vec::new() };
        assert(r@ =~= Seq::<(Seq<char>, Seq<Seq<char>>)>::empty());
        r
    }

    /// The position of the list with the given name, or the number of
    /// lists if there is none.
    pub fn position(&self, name: &str) -> (i: usize)
        ensures
            i as int == key_index(self@, name@, 0),
            i <= self.entries.len(),
    {
        let mut i: usize = 0;
        while i < self.entries.len()
            invariant
                i <= self.entries.len(),
                key_index(self@, name@, 0) == key_index(self@, name@, i as int),
            decreases self.entries.len() - i,
        {
            if same_text(self.entries[i].name.as_str(), name) {
                return i;
            }
            i += 1;
        }
        i
    }

    /// The items of the list with the given name.
    pub fn get(&self, name: &str) -> (r: Option<&Vec<String>>)
        ensures
            match r {
                Some(items) => lookup(self@, name@) == Some(texts(items@)),
                None => lookup(self@, name@) is None,
            },
    {
        let i = self.position(name);
        if i < self.entries.len() {
            Some(&self.entries[i].items)
        } else {
            None
        }
    }

    /// Binds `name` to `items`, in place of what it was bound to before.
    pub fn insert(&mut self, name: String, items: Vec<String>)
        ensures
            final(self)@ == bind(old(self)@, name@, texts(items@)),
    {
        let i = self.position(name.as_str());
        let ghost before = self@;
        let ghost n = name@;
        let ghost it = texts(items@);
        if i < self.entries.len() {
            self.entries.set(i, NamedList { name, items });
            assert(self@ =~= before.update(i as int, (n, it)));
        } else {
            self.entries.push(NamedList { name, items });
            assert(self@ =~= before.push((n, it)));
        }
    }
}

} // verus!
