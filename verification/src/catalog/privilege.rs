//! Access rights, and sets of them.

use vstd::prelude::*;

verus! {

/// An access right, as in PostgreSQL.
#[derive(Clone, Copy, Debug, PartialEq, Eq, Hash, Structural)]
pub enum Privilege {
    /// Right to connect to a database.
    Connect,
    /// Right to create objects in a database.
    Create,
    /// Right to read rows.
    Select,
    /// Right to add rows.
    Insert,
    /// Right to change rows.
    Update,
    /// Right to remove rows.
    Delete,
    /// Every right.
    All,
}

/// A set of access rights, kept in the order they were granted, none twice.
#[derive(Debug)]
pub struct PrivilegeSet {
    items: Vec<Privilege>,
}

impl PrivilegeSet {
    #[verifier::type_invariant]
    closed spec fn inv(self) -> bool {
        self.items@.no_duplicates()
    }

    /// The rights in the order in which they were added.
    pub closed spec fn ordered(&self) -> Seq<Privilege> {
        self.items@
    }
}

impl Clone for PrivilegeSet {
    fn clone(&self) -> (r: Self)
        ensures
            r.ordered() == self.ordered(),
    {
        proof { use_type_invariant(self); }
        let mut items: Vec<Privilege> = Vec::new();
        let mut i: usize = 0;
        while i < self.items.len()
            invariant
                i <= self.items@.len(),
                items@ == self.items@.subrange(0, i as int),
            decreases self.items@.len() - i,
        {
            items.push(self.items[i]);
            i = i + 1;
            assert(items@ =~= self.items@.subrange(0, i as int));
        }
        assert(items@ =~= self.items@);
        PrivilegeSet { items }
    }
}

impl View for PrivilegeSet {
    type V = Set<Privilege>;

    open spec fn view(&self) -> Set<Privilege> {
        self.ordered().to_set()
    }
}

impl PrivilegeSet {
    pub fn new() -> (s: Self)
        ensures
            s@ == Set::<Privilege>::empty(),
            s.ordered() == Seq::<Privilege>::empty(),
    {
        let s = PrivilegeSet { items: Vec::new() };
        assert(s@ =~= Set::<Privilege>::empty());
        s
    }

    /// The set holding only `p`.
    pub fn singleton(p: Privilege) -> (s: Self)
        ensures
            s@ == Set::<Privilege>::empty().insert(p),
            s.ordered() == seq![p],
    {
        let mut items = Vec::new();
        items.push(p);
        let s = PrivilegeSet { items };
        assert(s.ordered() =~= seq![p]);
        assert forall|x: Privilege| #[trigger] s@.contains(x) <==> Set::<Privilege>::empty().insert(p).contains(x) by {
            if x == p { assert(s.ordered()[0] == p); }
        }
        assert(s@ =~= Set::<Privilege>::empty().insert(p));
        s
    }

    pub fn len(&self) -> (n: usize)
        ensures
            n == self.ordered().len(),
            n == self@.len(),
            self.ordered().no_duplicates(),
    {
        proof {
            use_type_invariant(self);
            self.ordered().unique_seq_to_set();
        }
        self.items.len()
    }

    pub fn is_empty(&self) -> (b: bool)
        ensures
            b == (self@ == Set::<Privilege>::empty()),
    {
        proof {
            if self.items@.len() > 0 {
                assert(self@.contains(self.items@[0]));
            } else {
                assert(self@ =~= Set::<Privilege>::empty());
            }
        }
        self.items.len() == 0
    }

    fn position(&self, p: Privilege) -> (r: Option<usize>)
        ensures
            match r {
                Some(i) => i < self.items@.len() && self.items@[i as int] == p,
                None => !self.items@.contains(p),
            },
    {
        let mut i: usize = 0;
        while i < self.items.len()
            invariant
                i <= self.items@.len(),
                forall|j: int| 0 <= j < i ==> self.items@[j] != p,
            decreases self.items@.len() - i,
        {
            if self.items[i] == p {
                return Some(i);
            }
            i = i + 1;
        }
        None
    }

    pub fn contains(&self, p: &Privilege) -> (b: bool)
        ensures
            b == self@.contains(*p),
    {
        self.position(*p).is_some()
    }

    /// Adds `p`; returns whether it was absent.
    pub fn insert(&mut self, p: Privilege) -> (added: bool)
        ensures
            final(self)@ == old(self)@.insert(p),
            added == !old(self)@.contains(p),
    {
        proof { use_type_invariant(&*self); }
        match self.position(p) {
            Some(_) => {
                assert(self@.insert(p) =~= self@);
                false
            },
            None => {
                let ghost before = self.items@;
                let mut items = Vec::new();
                std::mem::swap(&mut items, &mut self.items);
                items.push(p);
                self.items = items;
                proof { before.lemma_push_to_set_commute(p); }
                true
            },
        }
    }

    /// Removes `p`; returns whether it was present.
    pub fn remove(&mut self, p: &Privilege) -> (removed: bool)
        ensures
            final(self)@ == old(self)@.remove(*p),
            removed == old(self)@.contains(*p),
    {
        proof { use_type_invariant(&*self); }
        match self.position(*p) {
            None => {
                assert(self@.remove(*p) =~= self@);
                false
            },
            Some(i) => {
                let ghost before = self.items@;
                let mut items = Vec::new();
                std::mem::swap(&mut items, &mut self.items);
                items.remove(i);
                self.items = items;
                proof {
                    let after = self.items@;
                    assert(after =~= before.remove(i as int));
                    assert forall|x: Privilege| #[trigger] after.contains(x) <==> before.to_set().remove(*p).contains(x) by {
                        if after.contains(x) {
                            let j = choose|j: int| 0 <= j < after.len() && after[j] == x;
                            if j < i { assert(before[j] == x); } else { assert(before[j + 1] == x); }
                        }
                        if before.to_set().remove(*p).contains(x) {
                            let j = choose|j: int| 0 <= j < before.len() && before[j] == x;
                            assert(j != i);
                            if j < i { assert(after[j] == x); } else { assert(after[j - 1] == x); }
                        }
                    }
                    assert(self@ =~= old(self)@.remove(*p));
                }
                true
            },
        }
    }

    /// The right at position `i`.
    pub fn get(&self, i: usize) -> (p: Privilege)
        requires
            i < self.ordered().len(),
        ensures
            p == self.ordered()[i as int],
    {
        self.items[i]
    }
}

} // verus!
