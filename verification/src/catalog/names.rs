//! Name-keyed containers: a set of names and a map from names to values.
//!
//! Both keep their entries in insertion order and never hold a name twice.

use vstd::prelude::*;

verus! {

/// The abstract content of a sequence of names: the set of their character sequences.
pub open spec fn names_of(s: Seq<String>) -> Seq<Seq<char>> {
    s.map_values(|x: String| x@)
}

/// A set of names, kept in insertion order, with no name occurring twice.
#[derive(Debug)]
pub struct NameSet {
    items: Vec<String>,
}

impl NameSet {
    #[verifier::type_invariant]
    closed spec fn inv(self) -> bool {
        names_of(self.items@).no_duplicates()
    }

    /// The names of the set in the order in which they were added.
    pub closed spec fn ordered(&self) -> Seq<Seq<char>> {
        names_of(self.items@)
    }
}

impl Clone for NameSet {
    fn clone(&self) -> (r: Self)
        ensures
            r.ordered() == self.ordered(),
    {
        proof { use_type_invariant(self); }
        let items = self.items.clone();
        proof {
            assert forall|i: int| 0 <= i < items@.len() implies items@[i] == self.items@[i] by {
                assert(cloned::<String>(self.items[i], items[i]));
            }
            assert(items@ =~= self.items@);
        }
        NameSet { items }
    }
}

impl View for NameSet {
    type V = Set<Seq<char>>;

    open spec fn view(&self) -> Set<Seq<char>> {
        self.ordered().to_set()
    }
}

impl NameSet {
    /// The set has finitely many names.
    pub proof fn lemma_finite(&self)
        ensures
            self@.finite(),
    {
        vstd::seq_lib::seq_to_set_is_finite(self.ordered());
    }

    pub fn new() -> (s: Self)
        ensures
            s.ordered() == Seq::<Seq<char>>::empty(),
            s@ == Set::<Seq<char>>::empty(),
    {
        let s = NameSet { items: Vec::new() };
        assert(s.ordered() =~= Seq::<Seq<char>>::empty());
        s
    }

    pub fn len(&self) -> (n: usize)
        ensures
            n == self.ordered().len(),
            n == self@.len(),
            self.ordered().no_duplicates(),
    {
        proof {
            use_type_invariant(self);
            self.ordered().unique_seq_to_set();
        }
        self.items.len()
    }

    pub fn is_empty(&self) -> (b: bool)
        ensures
            b == (self@ == Set::<Seq<char>>::empty()),
    {
        proof {
            use_type_invariant(self);
            self.ordered().unique_seq_to_set();
            if self.ordered().len() > 0 {
                assert(self@.contains(self.ordered()[0]));
            } else {
                assert(self@ =~= Set::<Seq<char>>::empty());
            }
        }
        self.items.len() == 0
    }

    /// The position of `name` in the ordered content, if it is there.
    fn position(&self, name: &str) -> (r: Option<usize>)
        ensures
            match r {
                Some(i) => i < self.ordered().len() && self.ordered()[i as int] == name@,
                None => !self.ordered().contains(name@),
            },
    {
        let key = name.to_owned();
        let mut i: usize = 0;
        while i < self.items.len()
            invariant
                i <= self.items@.len(),
                key@ == name@,
                forall|j: int| 0 <= j < i ==> self.items@[j]@ != name@,
            decreases self.items@.len() - i,
        {
            if self.items[i] == key {
                return Some(i);
            }
            i = i + 1;
        }
        proof {
            if self.ordered().contains(name@) {
                let j = choose|j: int| 0 <= j < self.ordered().len() && self.ordered()[j] == name@;
                assert(self.items@[j]@ == name@);
            }
        }
        None
    }

    pub fn contains(&self, name: &str) -> (b: bool)
        ensures
            b == self@.contains(name@),
    {
        let r = self.position(name);
        r.is_some()
    }

    /// Adds `name`; returns whether it was absent before.
    pub fn insert(&mut self, name: &str) -> (added: bool)
        ensures
            final(self)@ == old(self)@.insert(name@),
            added == !old(self)@.contains(name@),
            added ==> final(self).ordered() == old(self).ordered().push(name@),
            !added ==> final(self).ordered() == old(self).ordered(),
    {
        proof { use_type_invariant(&*self); }
        match self.position(name) {
            Some(_) => {
                assert(self@.insert(name@) =~= self@);
                false
            },
            None => {
                let owned = name.to_owned();
                let ghost before = self.items@;
                let mut items = Vec::new();
                std::mem::swap(&mut items, &mut self.items);
                items.push(owned);
                assert(names_of(items@) =~= names_of(before).push(name@));
                self.items = items;
                assert(names_of(self.items@) =~= names_of(before).push(name@));
                proof { names_of(before).lemma_push_to_set_commute(name@); }
                assert(self@ =~= old(self)@.insert(name@));
                true
            },
        }
    }

    /// Removes `name`; returns whether it was present.
    pub fn remove(&mut self, name: &str) -> (removed: bool)
        ensures
            final(self)@ == old(self)@.remove(name@),
            removed == old(self)@.contains(name@),
    {
        proof { use_type_invariant(&*self); }
        match self.position(name) {
            None => {
                assert(self@.remove(name@) =~= self@);
                false
            },
            Some(i) => {
                let ghost before = names_of(self.items@);
                let mut items = Vec::new();
                std::mem::swap(&mut items, &mut self.items);
                items.remove(i);
                assert(names_of(items@) =~= before.remove(i as int));
                self.items = items;
                proof {
                    assert forall|x: Seq<char>| #[trigger] self@.contains(x) <==> old(self)@.remove(name@).contains(x) by {
                        if self@.contains(x) {
                            let j = choose|j: int| 0 <= j < names_of(self.items@).len() && names_of(self.items@)[j] == x;
                            if j < i { assert(before[j] == x); } else { assert(before[j + 1] == x); }
                        }
                        if old(self)@.remove(name@).contains(x) {
                            let j = choose|j: int| 0 <= j < before.len() && before[j] == x;
                            assert(j != i);
                            if j < i { assert(names_of(self.items@)[j] == x); } else { assert(names_of(self.items@)[j - 1] == x); }
                        }
                    }
                    assert(self@ =~= old(self)@.remove(name@));
                }
                true
            },
        }
    }

    /// The name at position `i` of the ordered content.
    pub fn get(&self, i: usize) -> (s: &String)
        requires
            i < self.ordered().len(),
        ensures
            s@ == self.ordered()[i as int],
    {
        &self.items[i]
    }
}

} // verus!

verus! {

/// The names of a sequence of named entries, in order.
pub open spec fn entry_names<V>(s: Seq<(String, V)>) -> Seq<Seq<char>> {
    s.map_values(|e: (String, V)| e.0@)
}

/// A map from names to values, kept in insertion order, with no name occurring twice.
#[derive(Clone, Debug)]
#[verifier::reject_recursive_types(V)]
pub struct NameMap<V> {
    entries: Vec<(String, V)>,
}

impl<V> NameMap<V> {
    /// No name occurs twice.
    pub closed spec fn wf(&self) -> bool {
        entry_names(self.entries@).no_duplicates()
    }

    /// The names of the map, in insertion order.
    pub closed spec fn keys(&self) -> Seq<Seq<char>> {
        entry_names(self.entries@)
    }

    /// The values of the map, in the order of `keys`.
    pub closed spec fn vals(&self) -> Seq<V> {
        self.entries@.map_values(|e: (String, V)| e.1)
    }

    /// The value stored under `k`.
    pub open spec fn lookup(&self, k: Seq<char>) -> V {
        self.vals()[self.keys().index_of(k)]
    }

    /// Replacing the value at position `i` keeps the names and updates the map there.
    proof fn lemma_replace_value(before: &Self, after: &Self, i: int)
        requires
            before.wf(),
            0 <= i < before.keys().len(),
            after.entries@.len() == before.entries@.len(),
            forall|j: int| 0 <= j < before.entries@.len() && j != i ==> after.entries@[j] == before.entries@[j],
            after.entries@[i].0@ == before.entries@[i].0@,
        ensures
            after.wf(),
            after.keys() == before.keys(),
            after@ == before@.insert(before.keys()[i], after.entries@[i].1),
    {
        assert(after.keys() =~= before.keys());
        before.lemma_lookup(i);
        assert forall|k: Seq<char>| after@.contains_key(k) implies
            after@[k] == before@.insert(before.keys()[i], after.entries@[i].1)[k] by {
            let j = after.keys().index_of(k);
            assert(after.keys()[j] == k);
            before.lemma_lookup(j);
            after.lemma_lookup(j);
        }
        assert(after@ =~= before@.insert(before.keys()[i], after.entries@[i].1));
    }

    /// The map has finitely many names.
    pub proof fn lemma_dom_finite(&self)
        ensures
            self@.dom().finite(),
            self@.dom() == self.keys().to_set(),
    {
        assert(self@.dom() =~= self.keys().to_set());
        vstd::seq_lib::seq_to_set_is_finite(self.keys());
    }

    /// `keys` and `vals` always have the same length.
    pub proof fn lemma_lengths(&self)
        ensures
            self.keys().len() == self.vals().len(),
    {
    }

    /// The value found under the name at position `i` is the value at position `i`.
    pub proof fn lemma_lookup(&self, i: int)
        requires
            self.wf(),
            0 <= i < self.keys().len(),
        ensures
            self@.contains_key(self.keys()[i]),
            self@[self.keys()[i]] == self.vals()[i],
            self.lookup(self.keys()[i]) == self.vals()[i],
    {
        let k = self.keys()[i];
        assert(self.keys().contains(k));
        let j = self.keys().index_of(k);
        assert(self.keys()[j] == k);
    }
}

impl<V> View for NameMap<V> {
    type V = Map<Seq<char>, V>;

    open spec fn view(&self) -> Map<Seq<char>, V> {
        Map::new(|k: Seq<char>| self.keys().contains(k), |k: Seq<char>| self.lookup(k))
    }
}

impl<V> NameMap<V> {
    pub fn new() -> (m: Self)
        ensures
            m.wf(),
            m.keys() == Seq::<Seq<char>>::empty(),
            m@ == Map::<Seq<char>, V>::empty(),
    {
        let m = NameMap { entries: Vec::new() };
        assert(m.keys() =~= Seq::<Seq<char>>::empty());
        assert(m@ =~= Map::<Seq<char>, V>::empty());
        m
    }

    pub fn len(&self) -> (n: usize)
        ensures
            n == self.keys().len(),
            self.wf() ==> n == self@.len(),
    {
        proof {
            if self.wf() {
                self.keys().unique_seq_to_set();
                assert(self@.dom() =~= self.keys().to_set());
            }
        }
        self.entries.len()
    }

    pub fn is_empty(&self) -> (b: bool)
        ensures
            b == (self.keys().len() == 0),
            b == (self@ == Map::<Seq<char>, V>::empty()),
    {
        proof {
            if self.keys().len() > 0 {
                assert(self@.contains_key(self.keys()[0]));
            } else {
                assert(self@ =~= Map::<Seq<char>, V>::empty());
            }
        }
        self.entries.len() == 0
    }

    /// The position of `name` among the keys, if it is there.
    fn position(&self, name: &str) -> (r: Option<usize>)
        ensures
            match r {
                Some(i) => i < self.keys().len() && self.keys()[i as int] == name@,
                None => !self.keys().contains(name@),
            },
    {
        let key = name.to_owned();
        let mut i: usize = 0;
        while i < self.entries.len()
            invariant
                i <= self.entries@.len(),
                key@ == name@,
                forall|j: int| 0 <= j < i ==> self.entries@[j].0@ != name@,
            decreases self.entries@.len() - i,
        {
            if self.entries[i].0 == key {
                return Some(i);
            }
            i = i + 1;
        }
        proof {
            if self.keys().contains(name@) {
                let j = choose|j: int| 0 <= j < self.keys().len() && self.keys()[j] == name@;
                assert(self.entries@[j].0@ == name@);
            }
        }
        None
    }

    pub fn contains_key(&self, name: &str) -> (b: bool)
        ensures
            b == self@.contains_key(name@),
    {
        self.position(name).is_some()
    }

    pub fn get(&self, name: &str) -> (r: Option<&V>)
        requires
            self.wf(),
        ensures
            match r {
                Some(v) => self@.contains_key(name@) && *v == self@[name@],
                None => !self@.contains_key(name@),
            },
    {
        match self.position(name) {
            Some(i) => {
                proof { self.lemma_lookup(i as int); }
                Some(&self.entries[i].1)
            },
            None => None,
        }
    }

    pub fn get_mut(&mut self, name: &str) -> (r: Option<&mut V>)
        requires
            old(self).wf(),
        ensures
            final(self).wf(),
            final(self).keys() == old(self).keys(),
            match r {
                Some(v) => {
                    &&& old(self)@.contains_key(name@)
                    &&& *v == old(self)@[name@]
                    &&& final(self)@ == old(self)@.insert(name@, *final(v))
                },
                None => {
                    &&& !old(self)@.contains_key(name@)
                    &&& *final(self) == *old(self)
                },
            },
    {
        match self.position(name) {
            Some(i) => {
                proof {
                    self.lemma_lookup(i as int);
                    assert forall|m: Self| #![trigger m.wf()] #![trigger m.keys()] #![trigger m.view()]
                        m.entries@ =~= self.entries@.update(
                            i as int,
                            (self.entries@[i as int].0, m.entries@[i as int].1),
                        ) implies {
                            &&& m.wf()
                            &&& m.keys() == self.keys()
                            &&& m@ == self@.insert(name@, m.entries@[i as int].1)
                        } by {
                        Self::lemma_replace_value(self, &m, i as int);
                    }
                }
                let e = &mut self.entries[i];
                Some(&mut e.1)
            },
            None => None,
        }
    }
}

impl<V> NameMap<V> {
    /// Stores `value` under `name`, replacing any value stored there before.
    pub fn insert(&mut self, name: String, value: V)
        requires
            old(self).wf(),
        ensures
            final(self).wf(),
            final(self)@ == old(self)@.insert(name@, value),
            old(self)@.contains_key(name@) ==> final(self).keys() == old(self).keys(),
            !old(self)@.contains_key(name@) ==> final(self).keys() == old(self).keys().push(name@),
    {
        let ghost k = name@;
        match self.position(name.as_str()) {
            Some(i) => {
                let ghost before = *self;
                self.entries.set(i, (name, value));
                proof {
                    assert(self.entries@[i as int].0@ == before.entries@[i as int].0@);
                    Self::lemma_replace_value(&before, self, i as int);
                }
            },
            None => {
                let ghost before = *self;
                self.entries.push((name, value));
                proof {
                    assert(self.keys() =~= before.keys().push(k));
                    assert(self.vals() =~= before.vals().push(value));
                    assert(self.wf());
                    let n = before.keys().len() as int;
                    self.lemma_lookup(n);
                    assert forall|x: Seq<char>| #[trigger] self@.contains_key(x) <==> before@.insert(k, value).contains_key(x) by {
                        if self@.contains_key(x) && x != k {
                            let j = self.keys().index_of(x);
                            assert(self.keys()[j] == x);
                            assert(before.keys()[j] == x);
                        }
                        if before@.contains_key(x) {
                            let j = before.keys().index_of(x);
                            assert(before.keys()[j] == x);
                            assert(self.keys()[j] == x);
                        }
                    }
                    assert forall|x: Seq<char>| #[trigger] self@.contains_key(x) implies self@[x] == before@.insert(k, value)[x] by {
                        if x != k {
                            let j = self.keys().index_of(x);
                            assert(self.keys()[j] == x);
                            self.lemma_lookup(j);
                            before.lemma_lookup(j);
                        }
                    }
                    assert(self@ =~= before@.insert(k, value));
                }
            },
        }
    }

    /// Removes `name`, returning the value stored under it.
    pub fn remove(&mut self, name: &str) -> (r: Option<V>)
        requires
            old(self).wf(),
        ensures
            final(self).wf(),
            final(self)@ == old(self)@.remove(name@),
            match r {
                Some(v) => old(self)@.contains_key(name@) && v == old(self)@[name@],
                None => !old(self)@.contains_key(name@) && *final(self) == *old(self),
            },
    {
        match self.position(name) {
            None => {
                proof { assert(self@.remove(name@) =~= self@); }
                None
            },
            Some(i) => {
                let ghost before = *self;
                proof { before.lemma_lookup(i as int); }
                let (_, v) = self.entries.remove(i);
                proof {
                    assert(self.keys() =~= before.keys().remove(i as int));
                    assert(self.vals() =~= before.vals().remove(i as int));
                    assert(self.wf()) by {
                        assert forall|a: int, b: int| 0 <= a < b < self.keys().len() implies self.keys()[a] != self.keys()[b] by {
                            let a2 = if a < i { a } else { a + 1 };
                            let b2 = if b < i { b } else { b + 1 };
                            assert(self.keys()[a] == before.keys()[a2]);
                            assert(self.keys()[b] == before.keys()[b2]);
                        }
                    }
                    assert forall|x: Seq<char>| #[trigger] self@.contains_key(x) <==> before@.remove(name@).contains_key(x) by {
                        if self@.contains_key(x) {
                            let j = self.keys().index_of(x);
                            assert(self.keys()[j] == x);
                            let j2 = if j < i { j } else { j + 1 };
                            assert(before.keys()[j2] == x);
                        }
                        if before@.remove(name@).contains_key(x) {
                            let j = before.keys().index_of(x);
                            assert(before.keys()[j] == x);
                            assert(j != i);
                            let j2 = if j < i { j } else { j - 1 };
                            assert(self.keys()[j2] == x);
                        }
                    }
                    assert forall|x: Seq<char>| #[trigger] self@.contains_key(x) implies self@[x] == before@[x] by {
                        let j = self.keys().index_of(x);
                        assert(self.keys()[j] == x);
                        let j2 = if j < i { j } else { j + 1 };
                        self.lemma_lookup(j);
                        before.lemma_lookup(j2);
                    }
                    assert(self@ =~= before@.remove(name@));
                }
                Some(v)
            },
        }
    }

    /// The name at position `i`.
    pub fn key_at(&self, i: usize) -> (k: &String)
        requires
            i < self.keys().len(),
        ensures
            k@ == self.keys()[i as int],
    {
        &self.entries[i].0
    }

    /// The value at position `i`.
    pub fn value_at(&self, i: usize) -> (v: &V)
        requires
            i < self.keys().len(),
        ensures
            *v == self.vals()[i as int],
    {
        proof { self.lemma_lengths(); }
        &self.entries[i].1
    }

    /// Mutable access to the value at position `i`.
    pub fn value_at_mut(&mut self, i: usize) -> (v: &mut V)
        requires
            old(self).wf(),
            i < old(self).keys().len(),
        ensures
            *v == old(self).vals()[i as int],
            final(self).wf(),
            final(self).keys() == old(self).keys(),
            final(self).vals() == old(self).vals().update(i as int, *final(v)),
            final(self)@ == old(self)@.insert(old(self).keys()[i as int], *final(v)),
    {
        proof {
            self.lemma_lengths();
            assert forall|m: Self| #![trigger m.wf()] #![trigger m.keys()] #![trigger m.view()] #![trigger m.vals()]
                m.entries@ =~= self.entries@.update(
                    i as int,
                    (self.entries@[i as int].0, m.entries@[i as int].1),
                ) implies {
                    &&& m.wf()
                    &&& m.keys() == self.keys()
                    &&& m.vals() == self.vals().update(i as int, m.entries@[i as int].1)
                    &&& m@ == self@.insert(self.keys()[i as int], m.entries@[i as int].1)
                } by {
                Self::lemma_replace_value(self, &m, i as int);
                assert(m.vals() =~= self.vals().update(i as int, m.entries@[i as int].1));
            }
        }
        let e = &mut self.entries[i];
        &mut e.1
    }
}

} // verus!
