//! A table from names to values that keeps the order in which its names were
//! first inserted and holds no name twice.

use vstd::prelude::*;
use crate::text::same_text;

verus! {

/// The place of the first entry called `name`, or the number of entries where
/// there is none.
pub open spec fn position<T>(entries: Seq<(Seq<char>, T)>, name: Seq<char>) -> int
    decreases entries.len(),
{
    if entries.len() == 0 {
        0
    } else if entries[0].0 == name {
        0
    } else {
        1 + position(entries.skip(1), name)
    }
}

/// Some entry is called `name`.
pub open spec fn has_name<T>(entries: Seq<(Seq<char>, T)>, name: Seq<char>) -> bool {
    position(entries, name) < entries.len()
}

/// The value of the first entry called `name`.
pub open spec fn lookup<T>(entries: Seq<(Seq<char>, T)>, name: Seq<char>) -> Option<T> {
    if has_name(entries, name) {
        Some(entries[position(entries, name)].1)
    } else {
        None
    }
}

/// The entries after `name` has been given `value`: an entry called `name`
/// keeps its place and takes the value, a new name goes to the end.
pub open spec fn put<T>(entries: Seq<(Seq<char>, T)>, name: Seq<char>, value: T) -> Seq<
    (Seq<char>, T),
> {
    if has_name(entries, name) {
        entries.update(position(entries, name), (name, value))
    } else {
        entries.push((name, value))
    }
}

/// No two entries have the same name.
pub open spec fn distinct_names<T>(entries: Seq<(Seq<char>, T)>) -> bool {
    forall|i: int, j: int| 0 <= i < j < entries.len() ==> entries[i].0 != entries[j].0
}

/// The names of the entries, in order.
pub open spec fn names_of<T>(entries: Seq<(Seq<char>, T)>) -> Seq<Seq<char>> {
    Seq::new(entries.len(), |i: int| entries[i].0)
}

/// The values of the entries, in order.
pub open spec fn values_of<T>(entries: Seq<(Seq<char>, T)>) -> Seq<T> {
    Seq::new(entries.len(), |i: int| entries[i].1)
}

/// `position` is the least index that holds the name, and the length where no
/// index does.
pub proof fn lemma_position<T>(entries: Seq<(Seq<char>, T)>, name: Seq<char>)
    ensures
        0 <= position(entries, name) <= entries.len(),
        has_name(entries, name) ==> entries[position(entries, name)].0 == name,
        forall|j: int| 0 <= j < position(entries, name) ==> entries[j].0 != name,
    decreases entries.len(),
{
    if entries.len() > 0 && entries[0].0 != name {
        let rest = entries.skip(1);
        lemma_position(rest, name);
        assert forall|j: int| 0 <= j < position(entries, name) implies entries[j].0 != name by {
            if j > 0 {
                assert(rest[j - 1] == entries[j]);
            }
        }
    }
}

/// An index that holds the name and has no earlier one that does is the
/// name's position; where no index holds it, the position is the length.
pub proof fn lemma_position_is<T>(entries: Seq<(Seq<char>, T)>, name: Seq<char>, at: int)
    requires
        0 <= at <= entries.len(),
        at < entries.len() ==> entries[at].0 == name,
        forall|j: int| 0 <= j < at ==> entries[j].0 != name,
    ensures
        position(entries, name) == at,
{
    lemma_position(entries, name);
}

/// Giving a name a value keeps the names distinct, and afterwards the name has
/// that value while every other name has what it had.
pub proof fn lemma_put<T>(entries: Seq<(Seq<char>, T)>, name: Seq<char>, value: T)
    requires
        distinct_names(entries),
    ensures
        distinct_names(put(entries, name, value)),
        lookup(put(entries, name, value), name) == Some(value),
        forall|other: Seq<char>|
            other != name ==> lookup(put(entries, name, value), other) == lookup(entries, other),
{
    let after = put(entries, name, value);
    let at = position(entries, name);
    lemma_position(entries, name);
    lemma_position_is(after, name, at);
    assert forall|other: Seq<char>| other != name implies lookup(after, other) == lookup(
        entries,
        other,
    ) by {
        let p = position(entries, other);
        lemma_position(entries, other);
        if p < entries.len() {
            lemma_position_is(after, other, p);
        } else {
            lemma_position_is(after, other, after.len() as int);
        }
    }
}

/// Looking up a name after an entry was added at the end: an earlier entry of
/// that name still decides, and else the added entry does if it has the name.
pub proof fn lemma_lookup_push<T>(entries: Seq<(Seq<char>, T)>, added: (Seq<char>, T), name: Seq<char>)
    ensures
        has_name(entries.push(added), name) == (has_name(entries, name) || added.0 == name),
        lookup(entries.push(added), name) == if has_name(entries, name) {
            lookup(entries, name)
        } else if added.0 == name {
            Some(added.1)
        } else {
            None
        },
{
    let after = entries.push(added);
    let at = position(entries, name);
    lemma_position(entries, name);
    if at < entries.len() {
        lemma_position_is(after, name, at);
    } else if added.0 == name {
        lemma_position_is(after, name, entries.len() as int);
    } else {
        lemma_position_is(after, name, after.len() as int);
    }
}

/// A table from names to values. It keeps the order in which the names were
/// first inserted, and no name occurs twice.
#[derive(Debug)]
pub struct Table<V: View> {
    entries: Vec<(String, V)>,
}

/// What a vector of entries stands for: each name and each value by its view.
pub open spec fn entries_view<V: View>(entries: Seq<(String, V)>) -> Seq<(Seq<char>, V::V)> {
    Seq::new(entries.len(), |i: int| (entries[i].0@, entries[i].1@))
}

impl<V: View> View for Table<V> {
    type V = Seq<(Seq<char>, V::V)>;

    closed spec fn view(&self) -> Self::V {
        entries_view(self.entries@)
    }
}

impl<V: View> Table<V> {
    #[verifier::type_invariant]
    spec fn distinct(self) -> bool {
        distinct_names(self@)
    }

    /// The table without entries.
    pub fn new() -> (table: Self)
        ensures
            table@ == Seq::<(Seq<char>, V::V)>::empty(),
    {
        let table = Table { entries: Vec::new() };
        assert(table@ =~= Seq::<(Seq<char>, V::V)>::empty());
        table
    }

    /// The number of entries. It also tells that the names are distinct.
    pub fn len(&self) -> (n: usize)
        ensures
            n == self@.len(),
            distinct_names(self@),
    {
        proof {
            use_type_invariant(self);
        }
        self.entries.len()
    }

    /// The name of the entry at `index`.
    pub fn name_at(&self, index: usize) -> (name: &str)
        requires
            index < self@.len(),
        ensures
            name@ == self@[index as int].0,
    {
        self.entries[index].0.as_str()
    }

    /// The value of the entry at `index`.
    pub fn value_at(&self, index: usize) -> (value: &V)
        requires
            index < self@.len(),
        ensures
            value@ == self@[index as int].1,
    {
        &self.entries[index].1
    }

    /// The place of the entry called `name`, or the number of entries where
    /// there is none.
    pub fn find(&self, name: &str) -> (at: usize)
        ensures
            at == position(self@, name@),
            at <= self@.len(),
    {
        let n = self.entries.len();
        let mut i: usize = 0;
        while i < n
            invariant
                i <= n,
                n == self@.len(),
                n == self.entries@.len(),
                forall|j: int| 0 <= j < i ==> self@[j].0 != name@,
            decreases n - i,
        {
            if same_text(self.entries[i].0.as_str(), name) {
                proof {
                    lemma_position_is(self@, name@, i as int);
                }
                return i;
            }
            i += 1;
        }
        proof {
            lemma_position_is(self@, name@, n as int);
        }
        n
    }

    /// Tells whether an entry is called `name`.
    pub fn contains(&self, name: &str) -> (found: bool)
        ensures
            found == has_name(self@, name@),
    {
        self.find(name) < self.entries.len()
    }

    /// The value called `name`, if there is one.
    pub fn get(&self, name: &str) -> (value: Option<&V>)
        ensures
            value is Some <==> has_name(self@, name@),
            value matches Some(v) ==> lookup(self@, name@) == Some(v@),
    {
        let at = self.find(name);
        if at < self.entries.len() {
            Some(&self.entries[at].1)
        } else {
            None
        }
    }

    /// The names, in order. No two of them are the same.
    pub fn names(&self) -> (names: Vec<String>)
        ensures
            texts(names@) == names_of(self@),
            distinct_names(self@),
    {
        proof {
            use_type_invariant(self);
        }
        let mut names: Vec<String> = Vec::new();
        let mut i: usize = 0;
        while i < self.entries.len()
            invariant
                i <= self.entries@.len(),
                names@.len() == i,
                forall|j: int| 0 <= j < i ==> names@[j]@ == self.entries@[j].0@,
            decreases self.entries@.len() - i,
        {
            names.push(self.entries[i].0.clone());
            i += 1;
        }
        assert(texts(names@) =~= names_of(self@));
        names
    }

    /// Gives `name` the value `value`: an entry of that name keeps its place
    /// and takes the new value, a new name is added at the end.
    pub fn insert(&mut self, name: String, value: V)
        ensures
            final(self)@ == put(old(self)@, name@, value@),
            lookup(final(self)@, name@) == Some(value@),
            distinct_names(final(self)@),
    {
        proof {
            use_type_invariant(&*self);
            lemma_put(self@, name@, value@);
        }
        let at = self.find(name.as_str());
        let mut entries: Vec<(String, V)> = Vec::new();
        assert(self@ == old(self)@);
        core::mem::swap(&mut self.entries, &mut entries);
        if at < entries.len() {
            entries.set(at, (name, value));
        } else {
            entries.push((name, value));
        }
        assert(entries_view(entries@) =~= put(old(self)@, name@, value@));
        self.entries = entries;
    }
}

/// The texts that a vector of strings holds, in order.
pub open spec fn texts(strings: Seq<String>) -> Seq<Seq<char>> {
    Seq::new(strings.len(), |i: int| strings[i]@)
}

/// Copies a vector of strings.
pub fn copy_strings(strings: &Vec<String>) -> (copy: Vec<String>)
    ensures
        texts(copy@) == texts(strings@),
{
    let mut copy: Vec<String> = Vec::new();
    let mut i: usize = 0;
    while i < strings.len()
        invariant
            i <= strings@.len(),
            copy@.len() == i,
            forall|j: int| 0 <= j < i ==> copy@[j]@ == strings@[j]@,
        decreases strings@.len() - i,
    {
        copy.push(strings[i].clone());
        i += 1;
    }
    assert(texts(copy@) =~= texts(strings@));
    copy
}

impl Table<String> {
    /// The values, in the order of their names.
    pub fn values(&self) -> (values: Vec<String>)
        ensures
            texts(values@) == values_of(self@),
    {
        let mut values: Vec<String> = Vec::new();
        let mut i: usize = 0;
        while i < self.entries.len()
            invariant
                i <= self.entries@.len(),
                values@.len() == i,
                forall|j: int| 0 <= j < i ==> values@[j]@ == self.entries@[j].1@,
            decreases self.entries@.len() - i,
        {
            values.push(self.entries[i].1.clone());
            i += 1;
        }
        assert(texts(values@) =~= values_of(self@));
        values
    }
}

impl Clone for Table<String> {
    fn clone(&self) -> (copy: Self)
        ensures
            copy@ == self@,
    {
        proof {
            use_type_invariant(self);
        }
        let mut entries: Vec<(String, String)> = Vec::new();
        let mut i: usize = 0;
        while i < self.entries.len()
            invariant
                i <= self.entries@.len(),
                entries@.len() == i,
                forall|j: int| 0 <= j < i ==> entries@[j].0@ == self.entries@[j].0@,
                forall|j: int| 0 <= j < i ==> entries@[j].1@ == self.entries@[j].1@,
            decreases self.entries@.len() - i,
        {
            entries.push((self.entries[i].0.clone(), self.entries[i].1.clone()));
            i += 1;
        }
        assert(entries_view(entries@) =~= self@);
        Table { entries }
    }
}

} // verus!
