//! A finite map from names to values that remembers the order in which names
//! were first bound, so that it can be walked deterministically.

use vstd::prelude::*;

verus! {

/// The map denoted by a list of distinct names and the values bound to them.
pub open spec fn entries_map<V>(names: Seq<Seq<char>>, values: Seq<V>) -> Map<Seq<char>, V> {
    Map::new(|k: Seq<char>| names.contains(k), |k: Seq<char>| values[names.index_of(k)])
}

/// In a duplicate-free list every name is found at its own position.
pub proof fn lemma_index_of_unique(names: Seq<Seq<char>>, i: int)
    requires
        names.no_duplicates(),
        0 <= i < names.len(),
    ensures
        names.contains(names[i]),
        names.index_of(names[i]) == i,
{
    let j = names.index_of(names[i]);
    assert(names[j] == names[i]);
}

/// Rebinding the name at position `i` rebinds it in the denoted map.
pub proof fn lemma_update<V>(names: Seq<Seq<char>>, values: Seq<V>, i: int, v: V)
    requires
        names.no_duplicates(),
        names.len() == values.len(),
        0 <= i < names.len(),
    ensures
        entries_map(names, values.update(i, v)) == entries_map(names, values).insert(names[i], v),
{
    let a = entries_map(names, values.update(i, v));
    let b = entries_map(names, values).insert(names[i], v);
    assert forall|k: Seq<char>| a.contains_key(k) <==> b.contains_key(k) by {}
    assert forall|k: Seq<char>| #[trigger] a.contains_key(k) implies a[k] == b[k] by {
        let j = names.index_of(k);
        assert(names[j] == k);
    }
    assert(a =~= b);
}

/// Appending a fresh name binds it in the denoted map.
pub proof fn lemma_push<V>(names: Seq<Seq<char>>, values: Seq<V>, k: Seq<char>, v: V)
    requires
        names.no_duplicates(),
        names.len() == values.len(),
        !names.contains(k),
    ensures
        names.push(k).no_duplicates(),
        entries_map(names.push(k), values.push(v)) == entries_map(names, values).insert(k, v),
{
    let names2 = names.push(k);
    let a = entries_map(names2, values.push(v));
    let b = entries_map(names, values).insert(k, v);
    assert(names2[names.len() as int] == k);
    assert forall|x: Seq<char>| a.contains_key(x) <==> b.contains_key(x) by {
        if names.contains(x) {
            let j = names.index_of(x);
            assert(names2[j] == x);
        }
    }
    assert forall|x: Seq<char>| #[trigger] a.contains_key(x) implies a[x] == b[x] by {
        let j = names2.index_of(x);
        assert(names2[j] == x);
        if x != k {
            let j0 = names.index_of(x);
            assert(names[j0] == x);
            assert(names2[j0] == x);
        }
    }
    assert(a =~= b);
}

/// Dropping position `i` unbinds its name in the denoted map.
pub proof fn lemma_remove<V>(names: Seq<Seq<char>>, values: Seq<V>, i: int)
    requires
        names.no_duplicates(),
        names.len() == values.len(),
        0 <= i < names.len(),
    ensures
        names.remove(i).no_duplicates(),
        entries_map(names.remove(i), values.remove(i)) == entries_map(names, values).remove(
            names[i],
        ),
{
    let names2 = names.remove(i);
    let a = entries_map(names2, values.remove(i));
    let b = entries_map(names, values).remove(names[i]);
    assert forall|x: int, y: int|
        0 <= x < names2.len() && 0 <= y < names2.len() && x != y implies names2[x]
        != names2[y] by {
        let x0 = if x < i { x } else { x + 1 };
        let y0 = if y < i { y } else { y + 1 };
        assert(names2[x] == names[x0]);
        assert(names2[y] == names[y0]);
    }
    assert forall|k: Seq<char>| a.contains_key(k) <==> b.contains_key(k) by {
        if names2.contains(k) {
            let x = names2.index_of(k);
            let x0 = if x < i { x } else { x + 1 };
            assert(names[x0] == k);
        }
        if names.contains(k) && k != names[i] {
            let x0 = names.index_of(k);
            let x = if x0 < i { x0 } else { x0 - 1 };
            assert(names2[x] == k);
        }
    }
    assert forall|k: Seq<char>| #[trigger] a.contains_key(k) implies a[k] == b[k] by {
        let x = names2.index_of(k);
        let x0 = if x < i { x } else { x + 1 };
        assert(names[x0] == k);
        assert(names[names.index_of(k)] == k);
    }
    assert(a =~= b);
}

/// A map keyed by name. Names are kept in the order of their first insertion.
#[derive(Debug)]
pub struct NameMap<V> {
    entries: Vec<(String, V)>,
}

impl<V> View for NameMap<V> {
    type V = Map<Seq<char>, V>;

    open spec fn view(&self) -> Map<Seq<char>, V> {
        entries_map(self.names(), self.values())
    }
}

impl<V> NameMap<V> {
    /// The bound names, in table order.
    pub closed spec fn names(&self) -> Seq<Seq<char>> {
        self.entries@.map_values(|e: (String, V)| e.0@)
    }

    /// The bound values, in table order.
    pub closed spec fn values(&self) -> Seq<V> {
        self.entries@.map_values(|e: (String, V)| e.1)
    }

    /// Every name has one value and no name is bound twice.
    #[verifier::type_invariant]
    pub closed spec fn wf(&self) -> bool {
        self.names().no_duplicates()
    }

    /// How the table order relates to the map it denotes.
    pub proof fn lemma_entries(&self)
        requires
            self.wf(),
        ensures
            self.names().len() == self.values().len(),
            self.names().no_duplicates(),
            forall|i: int|
                0 <= i < self.names().len() ==> self@.contains_key(#[trigger] self.names()[i])
                    && self@[self.names()[i]] == self.values()[i],
            forall|k: Seq<char>| #[trigger]
                self@.contains_key(k) ==> 0 <= self.names().index_of(k) < self.names().len()
                    && self.names()[self.names().index_of(k)] == k,
    {
        assert forall|i: int| 0 <= i < self.names().len() implies self@.contains_key(
            #[trigger] self.names()[i],
        ) && self@[self.names()[i]] == self.values()[i] by {
            lemma_index_of_unique(self.names(), i);
        }
    }

    /// The empty map.
    pub fn new() -> (m: Self)
        ensures
            m.wf(),
            m@ == Map::<Seq<char>, V>::empty(),
            m.names().len() == 0,
    {
        let m = NameMap { entries: Vec::new() };
        assert(m@ =~= Map::<Seq<char>, V>::empty());
        m
    }

    /// The number of names that are bound.
    pub fn len(&self) -> (n: usize)
        ensures
            n == self.names().len(),
            n == self.values().len(),
            self.wf(),
    {
        proof {
            use_type_invariant(self);
        }
        self.entries.len()
    }

    /// The name at position `i` of the table.
    pub fn name_at(&self, i: usize) -> (name: &String)
        requires
            i < self.names().len(),
        ensures
            name@ == self.names()[i as int],
    {
        &self.entries[i].0
    }

    /// The value at position `i` of the table.
    pub fn value_at(&self, i: usize) -> (value: &V)
        requires
            i < self.values().len(),
        ensures
            *value == self.values()[i as int],
    {
        &self.entries[i].1
    }

    /// The position at which `name` is bound, if it is.
    pub fn position(&self, name: &String) -> (pos: Option<usize>)
        ensures
            self.wf(),
            match pos {
                Some(i) => i < self.names().len() && self.names()[i as int] == name@
                    && self@.contains_key(name@) && self.names().index_of(name@) == i,
                None => !self@.contains_key(name@) && !self.names().contains(name@),
            },
    {
        proof {
            use_type_invariant(self);
        }
        let mut i: usize = 0;
        while i < self.entries.len()
            invariant
                i <= self.entries@.len(),
                self.wf(),
                forall|j: int| 0 <= j < i ==> self.names()[j] != name@,
            decreases self.entries@.len() - i,
        {
            if self.entries[i].0 == *name {
                proof {
                    lemma_index_of_unique(self.names(), i as int);
                }
                return Some(i);
            }
            i += 1;
        }
        None
    }

    /// The value bound to `name`, if any.
    pub fn get(&self, name: &String) -> (value: Option<&V>)
        ensures
            match value {
                Some(v) => self@.contains_key(name@) && *v == self@[name@],
                None => !self@.contains_key(name@),
            },
    {
        match self.position(name) {
            Some(i) => Some(&self.entries[i].1),
            None => None,
        }
    }

    /// Binds `name` to `value`. A name already bound keeps its position; a
    /// new name goes to the end of the table.
    pub fn insert(&mut self, name: String, value: V)
        ensures
            final(self)@ == old(self)@.insert(name@, value),
            old(self)@.contains_key(name@) ==> final(self).names() == old(self).names()
                && final(self).values() == old(self).values().update(
                old(self).names().index_of(name@),
                value,
            ),
            !old(self)@.contains_key(name@) ==> final(self).names() == old(self).names().push(name@)
                && final(self).values() == old(self).values().push(value),
    {
        let ghost names = self.names();
        let ghost values = self.values();
        let ghost name_view = name@;
        let found = self.position(&name);
        let mut entries = Vec::new();
        std::mem::swap(&mut entries, &mut self.entries);
        match found {
            Some(i) => {
                entries.set(i, (name, value));
                proof {
                    lemma_update(names, values, i as int, value);
                    assert(entries@.map_values(|e: (String, V)| e.0@) =~= names);
                    assert(entries@.map_values(|e: (String, V)| e.1) =~= values.update(
                        i as int,
                        value,
                    ));
                }
            },
            None => {
                entries.push((name, value));
                proof {
                    lemma_push(names, values, name_view, value);
                    assert(entries@.map_values(|e: (String, V)| e.0@) =~= names.push(name_view));
                    assert(entries@.map_values(|e: (String, V)| e.1) =~= values.push(value));
                }
            },
        }
        self.entries = entries;
    }

    /// Unbinds `name` and hands back the value it had. The names after it
    /// move up by one position.
    pub fn remove(&mut self, name: &String) -> (value: Option<V>)
        ensures
            final(self)@ == old(self)@.remove(name@),
            match value {
                Some(v) => old(self)@.contains_key(name@) && v == old(self)@[name@],
                None => !old(self)@.contains_key(name@),
            },
    {
        let ghost names = self.names();
        let ghost values = self.values();
        match self.position(name) {
            Some(i) => {
                let mut entries = Vec::new();
                std::mem::swap(&mut entries, &mut self.entries);
                let removed = entries.remove(i);
                proof {
                    lemma_remove(names, values, i as int);
                    assert(entries@.map_values(|e: (String, V)| e.0@) =~= names.remove(i as int));
                    assert(entries@.map_values(|e: (String, V)| e.1) =~= values.remove(i as int));
                }
                self.entries = entries;
                Some(removed.1)
            },
            None => {
                proof {
                    assert(self@ =~= self@.remove(name@));
                }
                None
            },
        }
    }
}

} // verus!
