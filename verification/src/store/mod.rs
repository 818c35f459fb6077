//! Names bound to values, and the text they are kept in: one binding per
//! line, made of the name, the three characters `":"` and the value.
use crate::text::{
    find, first_occurrence, glyphs_of, is_glyph, lemma_first_occurrence, pieces, split_at,
    string_between, texts,
};
use vstd::prelude::*;
use vstd::string::*;

pub mod laws;

verus! {

/// What stands between a name and its value.
pub open spec fn separator() -> Seq<char> {
    seq!['"', ':', '"']
}

/// The line that keeps one binding.
pub open spec fn entry_line(name: Seq<char>, value: Seq<char>) -> Seq<char> {
    name + separator() + value + seq!['\n']
}

/// The lines of a text, one after the other.
pub open spec fn serialized(pairs: Seq<(Seq<char>, Seq<char>)>) -> Seq<char>
    decreases pairs.len(),
{
    if pairs.len() == 0 {
        Seq::empty()
    } else {
        serialized(pairs.drop_last()) + entry_line(pairs.last().0, pairs.last().1)
    }
}

/// What a line binds, if anything: the name is what stands before the first
/// separator, the value what stands between it and the next separator, or
/// the end of the line. A line without a separator binds nothing.
pub open spec fn parse_line(line: Seq<char>) -> Option<(Seq<char>, Seq<char>)> {
    match first_occurrence(line, separator(), 0) {
        None => None,
        Some(first) => {
            let start = first + 3;
            let end = match first_occurrence(line, separator(), start) {
                Some(second) => second,
                None => line.len() as int,
            };
            Some((line.subrange(0, first), line.subrange(start, end)))
        },
    }
}

/// Where `name` stands in a list of bindings; the length of the list if it
/// is not there.
pub open spec fn position_of(pairs: Seq<(Seq<char>, Seq<char>)>, name: Seq<char>) -> int
    decreases pairs.len(),
{
    if pairs.len() == 0 {
        0
    } else {
        let before = position_of(pairs.drop_last(), name);
        if before < pairs.len() - 1 || pairs.last().0 == name {
            before
        } else {
            pairs.len() as int
        }
    }
}

/// The bindings with `name` bound to `value`: in the place of its former
/// binding if it had one, else at the end.
pub open spec fn put(pairs: Seq<(Seq<char>, Seq<char>)>, name: Seq<char>, value: Seq<char>) -> Seq<
    (Seq<char>, Seq<char>),
> {
    let at = position_of(pairs, name);
    if at < pairs.len() {
        pairs.update(at, (name, value))
    } else {
        pairs.push((name, value))
    }
}

/// The bindings without that of `name`.
pub open spec fn dropped(pairs: Seq<(Seq<char>, Seq<char>)>, name: Seq<char>) -> Seq<
    (Seq<char>, Seq<char>),
> {
    let at = position_of(pairs, name);
    if at < pairs.len() {
        pairs.remove(at)
    } else {
        pairs
    }
}

/// The bindings after one more line has been read.
pub open spec fn bind_line(pairs: Seq<(Seq<char>, Seq<char>)>, line: Seq<char>) -> Seq<
    (Seq<char>, Seq<char>),
> {
    match parse_line(line) {
        Some((name, value)) => put(pairs, name, value),
        None => pairs,
    }
}

/// The bindings that a list of lines makes, read from first to last: a
/// later binding of a name takes the place of an earlier one.
pub open spec fn bindings(lines: Seq<Seq<char>>) -> Seq<(Seq<char>, Seq<char>)>
    decreases lines.len(),
{
    if lines.len() == 0 {
        Seq::empty()
    } else {
        bind_line(bindings(lines.drop_last()), lines.last())
    }
}

/// The bindings that a text holds: those of its lines, the pieces between
/// its line feeds.
pub open spec fn parsed(contents: Seq<char>) -> Seq<(Seq<char>, Seq<char>)> {
    bindings(pieces(contents, is_glyph('\n')))
}

/// No name is bound twice.
pub open spec fn distinct_names(pairs: Seq<(Seq<char>, Seq<char>)>) -> bool {
    forall|i: int, j: int| 0 <= i < j < pairs.len() ==> pairs[i].0 != pairs[j].0
}

/// The bindings as a map from names to values.
pub open spec fn bound(pairs: Seq<(Seq<char>, Seq<char>)>) -> Map<Seq<char>, Seq<char>>
    decreases pairs.len(),
{
    if pairs.len() == 0 {
        Map::empty()
    } else {
        bound(pairs.drop_last()).insert(pairs.last().0, pairs.last().1)
    }
}

/// `position_of` finds the first binding of the name.
pub proof fn lemma_position_of(pairs: Seq<(Seq<char>, Seq<char>)>, name: Seq<char>)
    ensures
        0 <= position_of(pairs, name) <= pairs.len(),
        position_of(pairs, name) < pairs.len() ==> pairs[position_of(pairs, name)].0 == name,
        forall|j: int| 0 <= j < position_of(pairs, name) ==> (#[trigger] pairs[j]).0 != name,
    decreases pairs.len(),
{
    if pairs.len() > 0 {
        lemma_position_of(pairs.drop_last(), name);
        assert forall|j: int| 0 <= j < position_of(pairs, name) implies (#[trigger] pairs[j]).0
            != name by {
            if j < pairs.len() - 1 {
                assert(pairs.drop_last()[j] == pairs[j]);
            }
        }
    }
}

/// The names of the map are the names of the list.
pub proof fn lemma_bound_names(pairs: Seq<(Seq<char>, Seq<char>)>, name: Seq<char>)
    ensures
        bound(pairs).contains_key(name) <==> position_of(pairs, name) < pairs.len(),
    decreases pairs.len(),
{
    lemma_position_of(pairs, name);
    if pairs.len() > 0 {
        lemma_bound_names(pairs.drop_last(), name);
        lemma_position_of(pairs.drop_last(), name);
    }
}

/// Where no name is bound twice, the map gives for every name the value that
/// stands beside it in the list.
pub proof fn lemma_bound_value(pairs: Seq<(Seq<char>, Seq<char>)>, at: int)
    requires
        distinct_names(pairs),
        0 <= at < pairs.len(),
    ensures
        bound(pairs).contains_key(pairs[at].0),
        bound(pairs)[pairs[at].0] == pairs[at].1,
    decreases pairs.len(),
{
    if at < pairs.len() - 1 {
        assert(pairs.drop_last()[at] == pairs[at]);
        assert(distinct_names(pairs.drop_last())) by {
            assert forall|i: int, j: int| 0 <= i < j < pairs.drop_last().len() implies pairs.drop_last()[i].0
                != pairs.drop_last()[j].0 by {
                assert(pairs.drop_last()[i] == pairs[i]);
                assert(pairs.drop_last()[j] == pairs[j]);
            }
        }
        lemma_bound_value(pairs.drop_last(), at);
    }
}

/// To bind a name in the list is to insert it into the map, and no name is
/// bound twice afterwards.
pub proof fn lemma_put(pairs: Seq<(Seq<char>, Seq<char>)>, name: Seq<char>, value: Seq<char>)
    requires
        distinct_names(pairs),
    ensures
        distinct_names(put(pairs, name, value)),
        bound(put(pairs, name, value)) == bound(pairs).insert(name, value),
    decreases pairs.len(),
{
    lemma_position_of(pairs, name);
    let at = position_of(pairs, name);
    let after = put(pairs, name, value);
    if at < pairs.len() {
        assert forall|i: int, j: int| 0 <= i < j < after.len() implies after[i].0 != after[j].0 by {
            assert(after[i].0 == pairs[i].0);
            assert(after[j].0 == pairs[j].0);
        }
        let rest = pairs.drop_last();
        assert(distinct_names(rest)) by {
            assert forall|i: int, j: int| 0 <= i < j < rest.len() implies rest[i].0 != rest[j].0 by {
                assert(rest[i] == pairs[i]);
                assert(rest[j] == pairs[j]);
            }
        }
        if at == pairs.len() - 1 {
            assert(after.drop_last() =~= rest);
            assert(bound(after) =~= bound(pairs).insert(name, value));
        } else {
            lemma_position_of(rest, name);
            assert(position_of(rest, name) == at);
            lemma_put(rest, name, value);
            assert(after.drop_last() =~= put(rest, name, value));
            assert(after.last() == pairs.last());
            assert(pairs.last().0 != name);
            assert(bound(after) =~= bound(pairs).insert(name, value));
        }
    } else {
        assert forall|i: int, j: int| 0 <= i < j < after.len() implies after[i].0 != after[j].0 by {
            if j < pairs.len() {
                assert(after[i].0 == pairs[i].0);
                assert(after[j].0 == pairs[j].0);
            } else {
                assert(after[i] == pairs[i]);
            }
        }
        assert(after.drop_last() =~= pairs);
    }
}

/// To drop a name from the list is to remove it from the map, and no name
/// is bound twice afterwards.
pub proof fn lemma_dropped(pairs: Seq<(Seq<char>, Seq<char>)>, name: Seq<char>)
    requires
        distinct_names(pairs),
    ensures
        distinct_names(dropped(pairs, name)),
        bound(dropped(pairs, name)) == bound(pairs).remove(name),
    decreases pairs.len(),
{
    lemma_position_of(pairs, name);
    lemma_bound_names(pairs, name);
    let at = position_of(pairs, name);
    let after = dropped(pairs, name);
    if at < pairs.len() {
        assert forall|i: int, j: int| 0 <= i < j < after.len() implies after[i].0 != after[j].0 by {
            assert(after[i] == pairs[if i < at { i } else { i + 1 }]);
            assert(after[j] == pairs[if j < at { j } else { j + 1 }]);
        }
        let rest = pairs.drop_last();
        assert(distinct_names(rest)) by {
            assert forall|i: int, j: int| 0 <= i < j < rest.len() implies rest[i].0 != rest[j].0 by {
                assert(rest[i] == pairs[i]);
                assert(rest[j] == pairs[j]);
            }
        }
        if at == pairs.len() - 1 {
            assert(after =~= rest);
            lemma_bound_names(rest, name);
            lemma_position_of(rest, name);
            assert(position_of(rest, name) == rest.len()) by {
                if position_of(rest, name) < rest.len() {
                    assert(rest[position_of(rest, name)] == pairs[position_of(rest, name)]);
                }
            }
            assert(bound(after) =~= bound(pairs).remove(name));
        } else {
            lemma_position_of(rest, name);
            assert(position_of(rest, name) == at);
            lemma_dropped(rest, name);
            assert(after.drop_last() =~= dropped(rest, name));
            assert(after.last() == pairs.last());
            assert(pairs.last().0 != name);
            assert(bound(after) =~= bound(pairs).remove(name));
        }
    } else {
        assert(bound(after) =~= bound(pairs).remove(name));
    }
}

/// A list of bindings in which no name stands twice.
pub struct Store {
    pub entries: Vec<(String, String)>,
}

impl View for Store {
    type V = Map<Seq<char>, Seq<char>>;

    /// The bindings as a map from names to values.
    open spec fn view(&self) -> Map<Seq<char>, Seq<char>> {
        bound(self.pairs())
    }
}

impl Store {
    /// The bindings in the order in which they are kept.
    pub open spec fn pairs(&self) -> Seq<(Seq<char>, Seq<char>)> {
        Seq::new(self.entries@.len(), |i: int| (self.entries@[i].0@, self.entries@[i].1@))
    }

    /// No name is bound twice.
    pub open spec fn wf(&self) -> bool {
        distinct_names(self.pairs())
    }

    /// A store without bindings.
    pub fn new() -> (store: Store)
        ensures
            store.wf(),
            store.pairs() == Seq::<(Seq<char>, Seq<char>)>::empty(),
            store@ == Map::<Seq<char>, Seq<char>>::empty(),
    {
        let store = Store { entries: Vec::new() };
        assert(store.pairs() =~= Seq::<(Seq<char>, Seq<char>)>::empty());
        store
    }

    /// Where `name` is bound; the number of bindings if it is not.
    pub fn position(&self, name: &String) -> (at: usize)
        ensures
            at == position_of(self.pairs(), name@),
    {
        let mut at: usize = 0;
        while at < self.entries.len()
            invariant
                at <= self.entries.len(),
                forall|j: int| 0 <= j < at ==> (#[trigger] self.pairs()[j]).0 != name@,
            decreases self.entries.len() - at,
        {
            if self.entries[at].0 == *name {
                proof {
                    assert(self.pairs()[at as int].0 == name@);
                    lemma_position_of(self.pairs(), name@);
                }
                return at;
            }
            at += 1;
        }
        proof {
            lemma_position_of(self.pairs(), name@);
        }
        at
    }

    /// The value that `key` is bound to, if it is bound.
    pub fn lookup(&self, key: &str) -> (value: Option<String>)
        requires
            self.wf(),
        ensures
            match value {
                Some(text) => self@.contains_key(key@) && text@ == self@[key@],
                None => !self@.contains_key(key@),
            },
    {
        let name = String::from_str(key);
        let at = self.position(&name);
        proof {
            lemma_position_of(self.pairs(), key@);
            lemma_bound_names(self.pairs(), key@);
        }
        if at < self.entries.len() {
            proof {
                lemma_bound_value(self.pairs(), at as int);
            }
            Some(self.entries[at].1.clone())
        } else {
            None
        }
    }

    /// Binds `key` to `value`: in the place of its former binding if it had
    /// one, else behind all others.
    pub fn set(&mut self, key: &str, value: String)
        requires
            old(self).wf(),
        ensures
            final(self).wf(),
            final(self).pairs() == put(old(self).pairs(), key@, value@),
            final(self)@ == old(self)@.insert(key@, value@),
    {
        let name = String::from_str(key);
        let at = self.position(&name);
        proof {
            lemma_put(self.pairs(), key@, value@);
        }
        if at < self.entries.len() {
            self.entries.set(at, (name, value));
        } else {
            self.entries.push((name, value));
        }
        assert(self.pairs() =~= put(old(self).pairs(), key@, value@));
    }

    /// Takes the binding of `key` away, if there is one.
    pub fn delete(&mut self, key: &str)
        requires
            old(self).wf(),
        ensures
            final(self).wf(),
            final(self).pairs() == dropped(old(self).pairs(), key@),
            final(self)@ == old(self)@.remove(key@),
    {
        let name = String::from_str(key);
        let at = self.position(&name);
        proof {
            lemma_dropped(self.pairs(), key@);
        }
        if at < self.entries.len() {
            self.entries.remove(at);
        }
        assert(self.pairs() =~= dropped(old(self).pairs(), key@));
    }

    /// Reads one line: binds what it binds, if anything.
    pub fn read_line(&mut self, line: &Vec<char>)
        requires
            old(self).wf(),
        ensures
            final(self).wf(),
            final(self).pairs() == bind_line(old(self).pairs(), line@),
    {
        let mut pattern: Vec<char> = Vec::new();
        pattern.push('"');
        pattern.push(':');
        pattern.push('"');
        assert(pattern@ =~= separator());
        match find(line, &pattern, 0) {
            None => {},
            Some(first) => {
                let len: usize = line.len();
                proof {
                    lemma_first_occurrence(line@, separator(), 0);
                    assert(separator().len() == 3);
                }
                let start: usize = first + 3;
                let end: usize = match find(line, &pattern, start) {
                    Some(second) => {
                        proof {
                            lemma_first_occurrence(line@, separator(), start as int);
                        }
                        second
                    },
                    None => len,
                };
                let name = string_between(line, 0, first);
                let value = string_between(line, start, end);
                self.set(name.as_str(), value);
            },
        }
    }

    /// The text that keeps the bindings: one line for each, in their order.
    pub fn to_text(&self) -> (text: String)
        ensures
            text@ == serialized(self.pairs()),
    {
        let mut text = String::new();
        let mut i: usize = 0;
        assert(self.pairs().take(0) =~= Seq::<(Seq<char>, Seq<char>)>::empty());
        while i < self.entries.len()
            invariant
                i <= self.entries.len(),
                text@ == serialized(self.pairs().take(i as int)),
            decreases self.entries.len() - i,
        {
            let line = format_entry(&self.entries[i].0, &self.entries[i].1);
            text.append(line.as_str());
            proof {
                let upto = self.pairs().take(i + 1);
                assert(upto.drop_last() =~= self.pairs().take(i as int));
                assert(upto.last() == self.pairs()[i as int]);
            }
            i += 1;
        }
        assert(self.pairs().take(i as int) =~= self.pairs());
        text
    }
}

/// The line that keeps the binding of `key` to `val`.
pub fn format_entry(key: &String, val: &String) -> (line: String)
    ensures
        line@ == entry_line(key@, val@),
{
    let mut line = key.clone();
    line.append("\":\"");
    line.append(val.as_str());
    line.append("\n");
    proof {
        reveal_strlit("\":\"");
        reveal_strlit("\n");
        assert("\":\""@ =~= separator());
        assert("\n"@ =~= seq!['\n']);
        assert(line@ =~= entry_line(key@, val@));
    }
    line
}

/// The bindings that `contents` holds. Every line that holds the separator
/// binds a name; where a name is bound on several lines, the last counts.
pub fn get_entries(contents: &str) -> (store: Store)
    ensures
        store.wf(),
        store.pairs() == parsed(contents@),
{
    let glyphs = glyphs_of(contents);
    let lines = split_at(&glyphs, '\n');
    let mut store = Store::new();
    let mut i: usize = 0;
    assert(texts(lines@).take(0) =~= Seq::<Seq<char>>::empty());
    while i < lines.len()
        invariant
            i <= lines.len(),
            store.wf(),
            store.pairs() == bindings(texts(lines@).take(i as int)),
        decreases lines.len() - i,
    {
        store.read_line(&lines[i]);
        proof {
            let upto = texts(lines@).take(i + 1);
            assert(upto.drop_last() =~= texts(lines@).take(i as int));
            assert(upto.last() == lines@[i as int]@);
        }
        i += 1;
    }
    assert(texts(lines@).take(i as int) =~= texts(lines@));
    store
}

} // verus!
