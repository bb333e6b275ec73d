//! A map from names to values that remembers the order of insertion.

use vstd::prelude::*;

verus! {

/// The map that a list of named entries stands for: each entry binds its name,
/// and a later entry replaces an earlier one of the same name.
pub open spec fn entries_map<T>(entries: Seq<(String, T)>) -> Map<Seq<char>, T>
    decreases entries.len(),
{
    if entries.len() == 0 {
        Map::empty()
    } else {
        entries_map(entries.drop_last()).insert(entries.last().0@, entries.last().1)
    }
}

/// The position of the last entry that carries `name`, or -1 if there is
/// none.
pub open spec fn last_position<T>(entries: Seq<(String, T)>, name: Seq<char>) -> int
    decreases entries.len(),
{
    if entries.len() == 0 {
        -1
    } else if entries.last().0@ == name {
        entries.len() - 1
    } else {
        last_position(entries.drop_last(), name)
    }
}

/// A name is bound by a list of entries exactly if some entry carries it, and
/// it is then bound to the value of the last such entry.
pub proof fn lemma_entries_map<T>(entries: Seq<(String, T)>, name: Seq<char>)
    ensures
        entries_map(entries).contains_key(name) <==> last_position(entries, name) >= 0,
        -1 <= last_position(entries, name) < entries.len(),
        last_position(entries, name) >= 0 ==> entries[last_position(entries, name)].0@ == name
            && entries_map(entries)[name] == entries[last_position(entries, name)].1,
    decreases entries.len(),
{
    if entries.len() > 0 {
        lemma_entries_map(entries.drop_last(), name);
    }
}

/// A map from names to values, kept as a list of entries in the order in
/// which they were inserted. Inserting under a name that is already bound
/// replaces what the name stood for.
#[derive(Debug, PartialEq, Eq)]
pub struct NameTable<T> {
    pub entries: Vec<(String, T)>,
}

impl<T> NameTable<T> {
    /// The map that the table stands for.
    pub open spec fn map(&self) -> Map<Seq<char>, T> {
        entries_map(self.entries@)
    }

    /// A table that binds no name.
    pub fn new() -> (r: Self)
        ensures
            r.map() == Map::<Seq<char>, T>::empty(),
            r.entries@.len() == 0,
    {
        NameTable { entries: Vec::new() }
    }

    /// Binds `name` to `value`, in place of what it was bound to before.
    pub fn insert(&mut self, name: String, value: T)
        ensures
            final(self).map() == old(self).map().insert(name@, value),
            final(self).entries@ == old(self).entries@.push((name, value)),
    {
        let ghost before = self.entries@;
        self.entries.push((name, value));
        assert(self.entries@.drop_last() =~= before);
    }

    /// The position of the entry that binds `name`, if there is one.
    pub fn position(&self, name: &String) -> (r: Option<usize>)
        ensures
            match r {
                Some(i) => i < self.entries@.len() && self.entries@[i as int].0@ == name@
                    && self.map().contains_key(name@) && self.map()[name@]
                    == self.entries@[i as int].1,
                None => !self.map().contains_key(name@),
            },
    {
        let mut i: usize = self.entries.len();
        proof {
            lemma_entries_map(self.entries@, name@);
            assert(self.entries@.take(i as int) =~= self.entries@);
        }
        while i > 0
            invariant
                i <= self.entries@.len(),
                last_position(self.entries@, name@) == last_position(
                    self.entries@.take(i as int),
                    name@,
                ),
            decreases i,
        {
            i = i - 1;
            proof {
                assert(self.entries@.take(i + 1).drop_last() =~= self.entries@.take(i as int));
            }
            if self.entries[i].0 == *name {
                proof {
                    lemma_entries_map(self.entries@, name@);
                }
                return Some(i);
            }
        }
        proof {
            lemma_entries_map(self.entries@, name@);
        }
        None
    }

    /// What `name` is bound to, if it is bound.
    pub fn get(&self, name: &String) -> (r: Option<&T>)
        ensures
            match r {
                Some(v) => self.map().contains_key(name@) && self.map()[name@] == *v,
                None => !self.map().contains_key(name@),
            },
    {
        match self.position(name) {
            Some(i) => Some(&self.entries[i].1),
            None => None,
        }
    }

    /// Whether `name` is bound.
    pub fn contains_key(&self, name: &String) -> (r: bool)
        ensures
            r == self.map().contains_key(name@),
    {
        self.position(name).is_some()
    }
}

} // verus!
