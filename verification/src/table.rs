//! Values by name.

use vstd::prelude::*;

use crate::text::same;

verus! {

/// Values by name, each name once, in the order in which the names came.
#[derive(Clone)]
pub struct Table<V> {
    entries: Vec<(String, V)>,
}

impl<V: View> View for Table<V> {
    type V = Map<Seq<char>, V::V>;

    closed spec fn view(&self) -> Map<Seq<char>, V::V> {
        Map::new(
            |name: Seq<char>| self.names().contains(name),
            |name: Seq<char>| self.entries@[self.names().index_of(name)].1@,
        )
    }
}

impl<V: View> Table<V> {
    /// The names, in order.
    pub closed spec fn names(&self) -> Seq<Seq<char>> {
        self.entries@.map_values(|entry: (String, V)| entry.0@)
    }

    /// No name occurs twice.
    pub closed spec fn valid(&self) -> bool {
        self.names().no_duplicates()
    }

    /// The names of a valid table are its keys, each once.
    pub proof fn lemma_names(&self)
        requires
            self.valid(),
        ensures
            self.names().no_duplicates(),
            self.names().to_set() =~= self@.dom(),
    {
    }

    /// What stands at an index stands under the name at that index.
    proof fn lemma_entry(&self, index: int)
        requires
            self.valid(),
            0 <= index < self.entries@.len(),
        ensures
            self.names()[index] == self.entries@[index].0@,
            self@.contains_key(self.entries@[index].0@),
            self@[self.entries@[index].0@] == self.entries@[index].1@,
    {
        let name = self.entries@[index].0@;
        assert(self.names()[index] == name);
        let found = self.names().index_of(name);
        assert(self.names()[found] == name);
    }

    /// A table without values.
    pub fn new() -> (table: Table<V>)
        ensures
            table.valid(),
            table@ == Map::<Seq<char>, V::V>::empty(),
    {
        let table = Table { entries: Vec::new() };
        assert(table@ =~= Map::<Seq<char>, V::V>::empty());
        table
    }

    /// How many values there are.
    pub fn len(&self) -> (len: usize)
        ensures
            len == self.names().len(),
    {
        self.entries.len()
    }

    /// The value at an index.
    pub fn at(&self, index: usize) -> (value: &V)
        requires
            self.valid(),
            index < self.names().len(),
        ensures
            self@.contains_key(self.names()[index as int]),
            value@ == self@[self.names()[index as int]],
    {
        proof {
            self.lemma_entry(index as int);
        }
        &self.entries[index].1
    }

    /// Where the value under a name stands.
    fn position(&self, name: &str) -> (found: Option<usize>)
        requires
            self.valid(),
        ensures
            match found {
                Some(index) => index < self.entries@.len() && self.entries@[index as int].0@
                    == name@,
                None => !self@.contains_key(name@),
            },
    {
        let mut i: usize = 0;
        while i < self.entries.len()
            invariant
                i <= self.entries@.len(),
                forall|k: int| 0 <= k < i ==> self.names()[k] != name@,
            decreases self.entries.len() - i,
        {
            if same(self.entries[i].0.as_str(), name) {
                return Some(i);
            }
            assert(self.names()[i as int] != name@);
            i = i + 1;
        }
        None
    }

    /// The value under a name, if there is one.
    pub fn get(&self, name: &str) -> (value: Option<&V>)
        requires
            self.valid(),
        ensures
            match value {
                Some(value) => self@.contains_key(name@) && self@[name@] == value@,
                None => !self@.contains_key(name@),
            },
    {
        match self.position(name) {
            Some(index) => {
                proof {
                    self.lemma_entry(index as int);
                }
                Some(&self.entries[index].1)
            },
            None => None,
        }
    }

    /// A table that has a map's names and under each of them the map's value
    /// holds that map.
    proof fn lemma_holds(&self, map: Map<Seq<char>, V::V>)
        requires
            self.valid(),
            forall|name: Seq<char>| map.contains_key(name) <==> self.names().contains(name),
            forall|i: int|
                0 <= i < self.entries@.len() ==> map[#[trigger] self.names()[i]]
                    == self.entries@[i].1@,
        ensures
            self@ == map,
    {
        assert forall|name: Seq<char>| self@.contains_key(name) implies self@[name]
            == map[name] by {
            let i = self.names().index_of(name);
            assert(self.names()[i] == name);
        }
        assert(self@ =~= map);
    }

    /// Put a value under a name, in place of any that stands there.
    pub fn insert(&mut self, name: String, value: V)
        requires
            old(self).valid(),
        ensures
            final(self).valid(),
            final(self)@ == old(self)@.insert(name@, value@),
    {
        let ghost before = *self;
        let ghost map = before@.insert(name@, value@);
        match self.position(name.as_str()) {
            Some(index) => {
                let ghost key = name@;
                self.entries.set(index, (name, value));
                proof {
                    assert(self.names() =~= before.names());
                    before.lemma_entry(index as int);
                    assert forall|i: int| 0 <= i < self.entries@.len() implies map[
                        #[trigger] self.names()[i]
                    ] == self.entries@[i].1@ by {
                        before.lemma_entry(i);
                    }
                    self.lemma_holds(map);
                }
            },
            None => {
                self.entries.push((name, value));
                proof {
                    let names = before.names();
                    assert(self.names() =~= names.push(name@));
                    assert(!names.contains(name@));
                    assert forall|k: Seq<char>| map.contains_key(k) implies self.names().contains(
                        k,
                    ) by {
                        if k == name@ {
                            assert(self.names()[names.len() as int] == k);
                        } else {
                            let i = names.index_of(k);
                            assert(names[i] == k);
                            assert(self.names()[i] == k);
                        }
                    }
                    assert forall|k: Seq<char>| self.names().contains(k) implies map.contains_key(
                        k,
                    ) by {
                        let i = self.names().index_of(k);
                        assert(self.names()[i] == k);
                        if i < names.len() {
                            assert(names[i] == k);
                        }
                    }
                    assert forall|i: int| 0 <= i < self.entries@.len() implies map[
                        #[trigger] self.names()[i]
                    ] == self.entries@[i].1@ by {
                        if i < names.len() {
                            before.lemma_entry(i);
                            assert(names.contains(names[i]));
                        }
                    }
                    self.lemma_holds(map);
                }
            },
        }
    }

    /// Take the value under a name away, if there is one.
    pub fn remove(&mut self, name: &str) -> (removed: Option<V>)
        requires
            old(self).valid(),
        ensures
            final(self).valid(),
            final(self)@ == old(self)@.remove(name@),
            match removed {
                Some(value) => old(self)@.contains_key(name@) && old(self)@[name@] == value@,
                None => !old(self)@.contains_key(name@),
            },
    {
        let ghost before = *self;
        let ghost map = before@.remove(name@);
        match self.position(name) {
            Some(index) => {
                proof {
                    before.lemma_entry(index as int);
                }
                let (_, value) = self.entries.remove(index);
                proof {
                    let names = before.names();
                    assert(self.names() =~= names.remove(index as int));
                    assert forall|k: Seq<char>| map.contains_key(k) implies self.names().contains(
                        k,
                    ) by {
                        let i = names.index_of(k);
                        assert(names[i] == k);
                        if i < index {
                            assert(self.names()[i] == k);
                        } else {
                            assert(self.names()[i - 1] == k);
                        }
                    }
                    assert forall|k: Seq<char>| self.names().contains(k) implies map.contains_key(
                        k,
                    ) by {
                        let i = self.names().index_of(k);
                        assert(self.names()[i] == k);
                        let j = if i < index {
                            i
                        } else {
                            i + 1
                        };
                        assert(names[j] == k);
                        assert(names[index as int] == name@);
                    }
                    assert forall|i: int| 0 <= i < self.entries@.len() implies map[
                        #[trigger] self.names()[i]
                    ] == self.entries@[i].1@ by {
                        let j = if i < index {
                            i
                        } else {
                            i + 1
                        };
                        before.lemma_entry(j);
                        assert(names[j] == self.names()[i]);
                        assert(names[index as int] == name@);
                    }
                    self.lemma_holds(map);
                }
                Some(value)
            },
            None => {
                assert(map =~= before@);
                None
            },
        }
    }
}

} // verus!
