//! Posting lists: for each index key, the positions of the rows that carry it.
//!
//! Keys are character sequences. An ordered list keeps its keys in ascending
//! code-point order (the order of a B-tree); an unordered one keeps them in the
//! order they were first added (a hash table, whose order nothing relies on).

use vstd::prelude::*;
use crate::text::{
    chars_equal, chars_less, chars_lt, has_prefix, lemma_chars_less_asymmetric,
    lemma_chars_less_irreflexive, lemma_chars_less_total, lemma_chars_less_transitive, push_chars, starts_with,
};

verus! {

/// The row positions of `s` other than `x`, in order.
pub open spec fn without(s: Seq<usize>, x: usize) -> Seq<usize>
    decreases s.len(),
{
    if s.len() == 0 {
        s
    } else if s.last() == x {
        without(s.drop_last(), x)
    } else {
        without(s.drop_last(), x).push(s.last())
    }
}

/// The total length of a sequence of lists.
pub open spec fn sum_lens(s: Seq<Seq<usize>>) -> nat
    decreases s.len(),
{
    if s.len() == 0 { 0 } else { sum_lens(s.drop_last()) + s.last().len() }
}

/// Whether `key` begins with the leading columns `prefix`: it is `prefix`
/// itself, or `prefix` followed by the column separator "||".
pub open spec fn column_prefix(key: Seq<char>, prefix: Seq<char>) -> bool {
    key == prefix || has_prefix(key, prefix + "||"@)
}

/// The lists, in order, of those keys that begin with the leading columns
/// `prefix` (see `column_prefix`), concatenated.
pub open spec fn prefix_rows(keys: Seq<Seq<char>>, lists: Seq<Seq<usize>>, prefix: Seq<char>) -> Seq<usize>
    decreases keys.len(),
{
    if keys.len() == 0 || lists.len() == 0 {
        Seq::empty()
    } else {
        prefix_rows(keys.drop_last(), lists.drop_last(), prefix)
            + if column_prefix(keys.last(), prefix) { lists.last() } else { Seq::empty() }
    }
}

/// Pairwise ascending order of keys.
pub open spec fn ascending(keys: Seq<Seq<char>>) -> bool {
    forall|i: int, j: int| 0 <= i < j < keys.len() ==> chars_less(keys[i], keys[j])
}

/// Keys with their row lists.
#[derive(Clone, Debug)]
pub struct PostingList {
    entries: Vec<(Vec<char>, Vec<usize>)>,
    ordered: bool,
}

impl PostingList {
    /// The keys, in the order kept.
    pub closed spec fn keys(&self) -> Seq<Seq<char>> {
        self.entries@.map_values(|e: (Vec<char>, Vec<usize>)| e.0@)
    }

    /// The row lists, in the order of `keys`.
    pub closed spec fn lists(&self) -> Seq<Seq<usize>> {
        self.entries@.map_values(|e: (Vec<char>, Vec<usize>)| e.1@)
    }

    /// Whether the keys are kept in ascending order.
    pub closed spec fn is_ordered(&self) -> bool {
        self.ordered
    }

    pub closed spec fn wf(&self) -> bool {
        &&& self.keys().no_duplicates()
        &&& self.ordered ==> ascending(self.keys())
        &&& forall|i: int| 0 <= i < self.lists().len() ==> (#[trigger] self.lists()[i]).len() > 0
    }

    /// The list of row positions stored under `k`.
    pub open spec fn lookup(&self, k: Seq<char>) -> Seq<usize> {
        self.lists()[self.keys().index_of(k)]
    }

    /// The number of row positions stored.
    pub open spec fn total(&self) -> nat {
        sum_lens(self.lists())
    }

    /// The row positions stored under keys that begin with the leading
    /// columns `prefix` (see `column_prefix`), in key order.
    pub open spec fn with_prefix(&self, prefix: Seq<char>) -> Seq<usize> {
        prefix_rows(self.keys(), self.lists(), prefix)
    }

    pub proof fn lemma_lengths(&self)
        ensures
            self.keys().len() == self.lists().len(),
    {
    }

    /// No key is stored with an empty list.
    pub proof fn lemma_lists_nonempty(&self)
        requires
            self.wf(),
        ensures
            forall|k: Seq<char>| #[trigger] self@.contains_key(k) ==> self@[k].len() > 0,
    {
        assert forall|k: Seq<char>| #[trigger] self@.contains_key(k) implies self@[k].len() > 0 by {
            let j = self.keys().index_of(k);
            assert(self.keys()[j] == k);
            self.lemma_lookup(j);
        }
    }

    /// Each key's list counts toward the total.
    pub proof fn lemma_list_within_total(&self, k: Seq<char>)
        requires
            self.wf(),
        ensures
            rows_under(self@, k).len() <= self.total(),
    {
        if self@.contains_key(k) {
            let j = self.keys().index_of(k);
            assert(self.keys()[j] == k);
            self.lemma_lookup(j);
            lemma_sum_lens_remove(self.lists(), j);
        }
    }

    /// There are no more keys than row positions.
    pub proof fn lemma_keys_within_total(&self)
        requires
            self.wf(),
        ensures
            self@.len() <= self.total(),
    {
        self.keys().unique_seq_to_set();
        assert(self@.dom() =~= self.keys().to_set());
        lemma_sum_lens_at_least(self.lists());
    }

    proof fn lemma_lookup(&self, i: int)
        requires
            self.wf(),
            0 <= i < self.keys().len(),
        ensures
            self@.contains_key(self.keys()[i]),
            self@[self.keys()[i]] == self.lists()[i],
    {
        let k = self.keys()[i];
        assert(self.keys().contains(k));
        let j = self.keys().index_of(k);
        assert(self.keys()[j] == k);
    }
}

impl View for PostingList {
    type V = Map<Seq<char>, Seq<usize>>;

    open spec fn view(&self) -> Map<Seq<char>, Seq<usize>> {
        Map::new(|k: Seq<char>| self.keys().contains(k), |k: Seq<char>| self.lookup(k))
    }
}

/// The row positions stored under `k`, empty when `k` is absent.
pub open spec fn rows_under(m: Map<Seq<char>, Seq<usize>>, k: Seq<char>) -> Seq<usize> {
    if m.contains_key(k) { m[k] } else { Seq::empty() }
}

/// The map after taking row `row` out of the list of `k`; a list left empty disappears.
pub open spec fn removed_row(m: Map<Seq<char>, Seq<usize>>, k: Seq<char>, row: usize) -> Map<Seq<char>, Seq<usize>> {
    if m.contains_key(k) {
        if without(m[k], row).len() == 0 {
            m.remove(k)
        } else {
            m.insert(k, without(m[k], row))
        }
    } else {
        m
    }
}

impl PostingList {
    pub fn new(ordered: bool) -> (p: Self)
        ensures
            p.wf(),
            p@ == Map::<Seq<char>, Seq<usize>>::empty(),
            p.is_ordered() == ordered,
            p.keys() == Seq::<Seq<char>>::empty(),
            p.total() == 0,
    {
        let p = PostingList { entries: Vec::new(), ordered };
        assert(p.keys() =~= Seq::<Seq<char>>::empty());
        assert(p.lists() =~= Seq::<Seq<usize>>::empty());
        assert(p@ =~= Map::<Seq<char>, Seq<usize>>::empty());
        p
    }

    /// The position of `key`, if stored.
    fn find(&self, key: &Vec<char>) -> (r: Option<usize>)
        ensures
            match r {
                Some(i) => i < self.keys().len() && self.keys()[i as int] == key@,
                None => !self.keys().contains(key@),
            },
    {
        let mut i: usize = 0;
        while i < self.entries.len()
            invariant
                i <= self.entries@.len(),
                forall|j: int| 0 <= j < i ==> self.entries@[j].0@ != key@,
            decreases self.entries@.len() - i,
        {
            if chars_equal(&self.entries[i].0, key) {
                return Some(i);
            }
            i = i + 1;
        }
        proof {
            if self.keys().contains(key@) {
                let j = choose|j: int| 0 <= j < self.keys().len() && self.keys()[j] == key@;
                assert(self.entries@[j].0@ == key@);
            }
        }
        None
    }

    /// Whether `key` is stored.
    pub fn contains(&self, key: &Vec<char>) -> (b: bool)
        ensures
            b == self@.contains_key(key@),
    {
        self.find(key).is_some()
    }

    /// A copy of the row positions stored under `key`.
    pub fn rows(&self, key: &Vec<char>) -> (r: Vec<usize>)
        requires
            self.wf(),
        ensures
            r@ == rows_under(self@, key@),
    {
        match self.find(key) {
            Some(i) => {
                proof { self.lemma_lookup(i as int); }
                let src = &self.entries[i].1;
                let mut out: Vec<usize> = Vec::new();
                let mut j: usize = 0;
                while j < src.len()
                    invariant
                        j <= src@.len(),
                        out@ == src@.subrange(0, j as int),
                    decreases src@.len() - j,
                {
                    out.push(src[j]);
                    j = j + 1;
                    assert(out@ =~= src@.subrange(0, j as int));
                }
                assert(out@ =~= src@);
                out
            },
            None => Vec::new(),
        }
    }

    /// The number of distinct keys.
    pub fn key_count(&self) -> (n: usize)
        requires
            self.wf(),
        ensures
            n == self@.len(),
            n == self.keys().len(),
    {
        proof {
            self.keys().unique_seq_to_set();
            assert(self@.dom() =~= self.keys().to_set());
        }
        self.entries.len()
    }

    /// The number of row positions stored.
    pub fn entry_count(&self) -> (n: usize)
        requires
            self.total() <= usize::MAX,
        ensures
            n == self.total(),
    {
        let mut sum: usize = 0;
        let mut i: usize = 0;
        proof { self.lemma_lengths(); }
        while i < self.entries.len()
            invariant
                i <= self.entries@.len(),
                self.keys().len() == self.lists().len(),
                self.lists().len() == self.entries@.len(),
                sum == sum_lens(self.lists().subrange(0, i as int)),
                self.total() <= usize::MAX,
            decreases self.entries@.len() - i,
        {
            proof {
                assert(self.lists().subrange(0, i + 1).drop_last() =~= self.lists().subrange(0, i as int));
                lemma_sum_lens_prefix(self.lists(), i + 1);
            }
            sum = sum + self.entries[i].1.len();
            i = i + 1;
        }
        assert(self.lists().subrange(0, self.entries@.len() as int) =~= self.lists());
        sum
    }

    /// Removes every key.
    pub fn clear(&mut self)
        ensures
            final(self).wf(),
            final(self)@ == Map::<Seq<char>, Seq<usize>>::empty(),
            final(self).is_ordered() == old(self).is_ordered(),
            final(self).total() == 0,
    {
        self.entries = Vec::new();
        assert(self.keys() =~= Seq::<Seq<char>>::empty());
        assert(self.lists() =~= Seq::<Seq<usize>>::empty());
        assert(self@ =~= Map::<Seq<char>, Seq<usize>>::empty());
    }
}

/// Lists that are none of them empty hold at least one position each.
pub proof fn lemma_sum_lens_at_least(s: Seq<Seq<usize>>)
    requires
        forall|i: int| 0 <= i < s.len() ==> (#[trigger] s[i]).len() > 0,
    ensures
        sum_lens(s) >= s.len(),
    decreases s.len(),
{
    if s.len() > 0 {
        let p = s.drop_last();
        assert forall|i: int| 0 <= i < p.len() implies (#[trigger] p[i]).len() > 0 by {
            assert(p[i] == s[i]);
        }
        lemma_sum_lens_at_least(p);
        assert(s.last() == s[s.len() - 1]);
    }
}

/// The total of a prefix of the lists never exceeds the total of all of them.
pub proof fn lemma_sum_lens_prefix(s: Seq<Seq<usize>>, n: int)
    requires
        0 <= n <= s.len(),
    ensures
        sum_lens(s.subrange(0, n)) <= sum_lens(s),
    decreases s.len() - n,
{
    if n < s.len() {
        lemma_sum_lens_prefix(s, n + 1);
        assert(s.subrange(0, n + 1).drop_last() =~= s.subrange(0, n));
    } else {
        assert(s.subrange(0, n) =~= s);
    }
}

/// The total of a concatenation is the sum of the totals.
pub proof fn lemma_sum_lens_concat(a: Seq<Seq<usize>>, b: Seq<Seq<usize>>)
    ensures
        sum_lens(a + b) == sum_lens(a) + sum_lens(b),
    decreases b.len(),
{
    if b.len() == 0 {
        assert(a + b =~= a);
    } else {
        lemma_sum_lens_concat(a, b.drop_last());
        assert((a + b).drop_last() =~= a + b.drop_last());
    }
}

/// The total after inserting a list at position `p`.
pub proof fn lemma_sum_lens_insert(s: Seq<Seq<usize>>, p: int, x: Seq<usize>)
    requires
        0 <= p <= s.len(),
    ensures
        sum_lens(s.insert(p, x)) == sum_lens(s) + x.len(),
{
    assert(s.insert(p, x) =~= s.subrange(0, p) + (seq![x] + s.subrange(p, s.len() as int)));
    assert(s =~= s.subrange(0, p) + s.subrange(p, s.len() as int));
    lemma_sum_lens_concat(s.subrange(0, p), seq![x] + s.subrange(p, s.len() as int));
    lemma_sum_lens_concat(seq![x], s.subrange(p, s.len() as int));
    lemma_sum_lens_concat(s.subrange(0, p), s.subrange(p, s.len() as int));
    assert(seq![x].drop_last() =~= Seq::<Seq<usize>>::empty());
    assert(sum_lens(Seq::<Seq<usize>>::empty()) == 0);
    assert(sum_lens(seq![x]) == x.len());
}

/// The total after removing the list at position `i`.
pub proof fn lemma_sum_lens_remove(s: Seq<Seq<usize>>, i: int)
    requires
        0 <= i < s.len(),
    ensures
        sum_lens(s.remove(i)) + s[i].len() == sum_lens(s),
{
    lemma_sum_lens_insert(s.remove(i), i, s[i]);
    assert(s.remove(i).insert(i, s[i]) =~= s);
}

/// The total after replacing the list at position `i`.
pub proof fn lemma_sum_lens_update(s: Seq<Seq<usize>>, i: int, x: Seq<usize>)
    requires
        0 <= i < s.len(),
    ensures
        sum_lens(s.update(i, x)) + s[i].len() == sum_lens(s) + x.len(),
{
    lemma_sum_lens_remove(s, i);
    lemma_sum_lens_insert(s.remove(i), i, x);
    assert(s.remove(i).insert(i, x) =~= s.update(i, x));
}

impl PostingList {
    /// After replacing the list at position `i`, the map changes at that key only.
    proof fn lemma_view_update(before: &Self, after: &Self, i: int)
        requires
            before.wf(),
            0 <= i < before.keys().len(),
            after.keys() == before.keys(),
            after.lists() == before.lists().update(i, after.lists()[i]),
            after.lists()[i].len() > 0,
            after.ordered == before.ordered,
        ensures
            after.wf(),
            after@ == before@.insert(before.keys()[i], after.lists()[i]),
    {
        before.lemma_lookup(i);
        assert forall|j: int| 0 <= j < after.lists().len() implies (#[trigger] after.lists()[j]).len() > 0 by {
            if j != i {
                assert(after.lists()[j] == before.lists()[j]);
            }
        }
        assert forall|k: Seq<char>| #[trigger] after@.contains_key(k) implies
            after@[k] == before@.insert(before.keys()[i], after.lists()[i])[k] by {
            let j = after.keys().index_of(k);
            assert(after.keys()[j] == k);
            before.lemma_lookup(j);
            after.lemma_lookup(j);
        }
        assert(after@ =~= before@.insert(before.keys()[i], after.lists()[i]));
    }

    /// After inserting a new key at position `p`, the map gains that key.
    proof fn lemma_view_insert(before: &Self, after: &Self, p: int, k: Seq<char>, l: Seq<usize>)
        requires
            before.wf(),
            0 <= p <= before.keys().len(),
            !before.keys().contains(k),
            after.keys() == before.keys().insert(p, k),
            after.lists() == before.lists().insert(p, l),
            l.len() > 0,
            after.ordered == before.ordered,
            after.ordered ==> ascending(after.keys()),
        ensures
            after.wf(),
            after@ == before@.insert(k, l),
    {
        before.lemma_lengths();
        assert forall|j: int| 0 <= j < after.lists().len() implies (#[trigger] after.lists()[j]).len() > 0 by {
            if j < p {
                assert(after.lists()[j] == before.lists()[j]);
            } else if j > p {
                assert(after.lists()[j] == before.lists()[j - 1]);
            }
        }
        assert(after.keys().no_duplicates()) by {
            assert forall|a: int, b: int| 0 <= a < b < after.keys().len() implies after.keys()[a] != after.keys()[b] by {
                if a < p && b < p {
                } else if a < p && b == p {
                    assert(before.keys()[a] != k);
                } else if a < p {
                    assert(after.keys()[b] == before.keys()[b - 1]);
                } else if a == p {
                    assert(after.keys()[b] == before.keys()[b - 1]);
                    assert(before.keys().contains(before.keys()[b - 1]));
                } else {
                    assert(after.keys()[a] == before.keys()[a - 1]);
                    assert(after.keys()[b] == before.keys()[b - 1]);
                }
            }
        }
        after.lemma_lookup(p);
        assert forall|x: Seq<char>| #[trigger] after@.contains_key(x) <==> before@.insert(k, l).contains_key(x) by {
            if after@.contains_key(x) && x != k {
                let j = after.keys().index_of(x);
                assert(after.keys()[j] == x);
                if j < p { assert(before.keys()[j] == x); } else { assert(j != p); assert(before.keys()[j - 1] == x); }
            }
            if before@.contains_key(x) {
                let j = before.keys().index_of(x);
                assert(before.keys()[j] == x);
                if j < p { assert(after.keys()[j] == x); } else { assert(after.keys()[j + 1] == x); }
            }
        }
        assert forall|x: Seq<char>| #[trigger] after@.contains_key(x) implies after@[x] == before@.insert(k, l)[x] by {
            if x != k {
                let j = after.keys().index_of(x);
                assert(after.keys()[j] == x);
                after.lemma_lookup(j);
                if j < p { before.lemma_lookup(j); } else { assert(j != p); before.lemma_lookup(j - 1); }
            }
        }
        assert(after@ =~= before@.insert(k, l));
    }

    /// After removing the key at position `i`, the map loses that key.
    proof fn lemma_view_remove(before: &Self, after: &Self, i: int)
        requires
            before.wf(),
            0 <= i < before.keys().len(),
            after.keys() == before.keys().remove(i),
            after.lists() == before.lists().remove(i),
            after.ordered == before.ordered,
        ensures
            after.wf(),
            after@ == before@.remove(before.keys()[i]),
    {
        before.lemma_lengths();
        let k = before.keys()[i];
        assert(after.wf()) by {
            assert forall|a: int, b: int| 0 <= a < b < after.keys().len() implies
                after.keys()[a] != after.keys()[b] && (after.ordered ==> chars_less(after.keys()[a], after.keys()[b])) by {
                let a2 = if a < i { a } else { a + 1 };
                let b2 = if b < i { b } else { b + 1 };
                assert(after.keys()[a] == before.keys()[a2]);
                assert(after.keys()[b] == before.keys()[b2]);
            }
            assert forall|j: int| 0 <= j < after.lists().len() implies (#[trigger] after.lists()[j]).len() > 0 by {
                let j2 = if j < i { j } else { j + 1 };
                assert(after.lists()[j] == before.lists()[j2]);
            }
        }
        assert forall|x: Seq<char>| #[trigger] after@.contains_key(x) <==> before@.remove(k).contains_key(x) by {
            if after@.contains_key(x) {
                let j = after.keys().index_of(x);
                assert(after.keys()[j] == x);
                let j2 = if j < i { j } else { j + 1 };
                assert(before.keys()[j2] == x);
            }
            if before@.remove(k).contains_key(x) {
                let j = before.keys().index_of(x);
                assert(before.keys()[j] == x);
                assert(j != i);
                let j2 = if j < i { j } else { j - 1 };
                assert(after.keys()[j2] == x);
            }
        }
        assert forall|x: Seq<char>| #[trigger] after@.contains_key(x) implies after@[x] == before@[x] by {
            let j = after.keys().index_of(x);
            assert(after.keys()[j] == x);
            let j2 = if j < i { j } else { j + 1 };
            after.lemma_lookup(j);
            before.lemma_lookup(j2);
        }
        assert(after@ =~= before@.remove(k));
    }

    /// The first position whose key sorts after `key`.
    fn insert_position(&self, key: &Vec<char>) -> (p: usize)
        ensures
            p <= self.keys().len(),
            forall|j: int| 0 <= j < p ==> !chars_less(key@, #[trigger] self.keys()[j]),
            p < self.keys().len() ==> chars_less(key@, self.keys()[p as int]),
    {
        let mut i: usize = 0;
        while i < self.entries.len()
            invariant
                i <= self.entries@.len(),
                forall|j: int| 0 <= j < i ==> !chars_less(key@, #[trigger] self.keys()[j]),
            decreases self.entries@.len() - i,
        {
            if chars_lt(key, &self.entries[i].0) {
                return i;
            }
            i = i + 1;
        }
        i
    }

    /// Adds row position `row` under `key`.
    pub fn add(&mut self, key: Vec<char>, row: usize)
        requires
            old(self).wf(),
        ensures
            final(self).wf(),
            final(self).is_ordered() == old(self).is_ordered(),
            final(self)@ == old(self)@.insert(key@, rows_under(old(self)@, key@).push(row)),
            final(self).total() == old(self).total() + 1,
    {
        let ghost k = key@;
        let ghost before = *self;
        proof { before.lemma_lengths(); }
        match self.find(&key) {
            Some(i) => {
                proof { before.lemma_lookup(i as int); }
                self.entries[i].1.push(row);
                proof {
                    assert(self.keys() =~= before.keys());
                    assert(self.lists() =~= before.lists().update(i as int, before.lists()[i as int].push(row)));
                    Self::lemma_view_update(&before, self, i as int);
                    lemma_sum_lens_update(before.lists(), i as int, before.lists()[i as int].push(row));
                }
            },
            None => {
                let mut list: Vec<usize> = Vec::new();
                list.push(row);
                let p = if self.ordered { self.insert_position(&key) } else { self.entries.len() };
                self.entries.insert(p, (key, list));
                proof {
                    assert(self.keys() =~= before.keys().insert(p as int, k));
                    assert(self.lists() =~= before.lists().insert(p as int, seq![row]));
                    if self.ordered {
                        assert forall|a: int, b: int| 0 <= a < b < self.keys().len() implies
                            chars_less(self.keys()[a], self.keys()[b]) by {
                            if a < p && b < p {
                                assert(chars_less(before.keys()[a], before.keys()[b]));
                            } else if a < p && b == p {
                                assert(!chars_less(k, before.keys()[a]));
                                assert(before.keys()[a] != k);
                                lemma_chars_less_total(k, before.keys()[a]);
                            } else if a < p {
                                assert(self.keys()[b] == before.keys()[b - 1]);
                                assert(chars_less(before.keys()[a], before.keys()[b - 1]));
                            } else if a == p {
                                assert(self.keys()[b] == before.keys()[b - 1]);
                                if b - 1 > p {
                                    assert(chars_less(before.keys()[p as int], before.keys()[b - 1]));
                                    lemma_chars_less_transitive(k, before.keys()[p as int], before.keys()[b - 1]);
                                }
                            } else {
                                assert(self.keys()[a] == before.keys()[a - 1]);
                                assert(self.keys()[b] == before.keys()[b - 1]);
                                assert(chars_less(before.keys()[a - 1], before.keys()[b - 1]));
                            }
                        }
                    }
                    Self::lemma_view_insert(&before, self, p as int, k, seq![row]);
                    assert(rows_under(before@, k).push(row) =~= seq![row]);
                    lemma_sum_lens_insert(before.lists(), p as int, seq![row]);
                }
            },
        }
    }

    /// Takes row position `row` out of the list stored under `key`; a list left
    /// empty is removed with its key.
    pub fn remove_row(&mut self, key: &Vec<char>, row: usize)
        requires
            old(self).wf(),
        ensures
            final(self).wf(),
            final(self).is_ordered() == old(self).is_ordered(),
            final(self)@ == removed_row(old(self)@, key@, row),
            final(self).total() + rows_under(old(self)@, key@).len() == old(self).total() + rows_under(final(self)@, key@).len(),
    {
        let ghost before = *self;
        proof { before.lemma_lengths(); }
        match self.find(key) {
            None => {},
            Some(i) => {
                proof { before.lemma_lookup(i as int); }
                let kept = copy_without(&self.entries[i].1, row);
                if kept.len() == 0 {
                    self.entries.remove(i);
                    proof {
                        assert(self.keys() =~= before.keys().remove(i as int));
                        assert(self.lists() =~= before.lists().remove(i as int));
                        Self::lemma_view_remove(&before, self, i as int);
                        lemma_sum_lens_remove(before.lists(), i as int);
                    }
                } else {
                    let ghost kv = kept@;
                    self.entries[i].1 = kept;
                    proof {
                        assert(self.keys() =~= before.keys());
                        assert(self.lists() =~= before.lists().update(i as int, kv));
                        Self::lemma_view_update(&before, self, i as int);
                        lemma_sum_lens_update(before.lists(), i as int, kv);
                    }
                }
            },
        }
    }

    /// The row positions stored under keys that begin with the leading
    /// columns `prefix` (see `column_prefix`), in key order.
    pub fn scan_prefix(&self, prefix: &Vec<char>) -> (r: Vec<usize>)
        ensures
            r@ == self.with_prefix(prefix@),
    {
        proof { self.lemma_lengths(); }
        let mut sep: Vec<char> = Vec::new();
        push_chars(&mut sep, prefix);
        sep.push('|');
        sep.push('|');
        proof { reveal_strlit("||"); }
        assert(sep@ =~= prefix@ + "||"@);
        let mut out: Vec<usize> = Vec::new();
        let mut i: usize = 0;
        while i < self.entries.len()
            invariant
                i <= self.entries@.len(),
                self.keys().len() == self.entries@.len(),
                self.lists().len() == self.entries@.len(),
                out@ == prefix_rows(self.keys().subrange(0, i as int), self.lists().subrange(0, i as int), prefix@),
                sep@ == prefix@ + "||"@,
            decreases self.entries@.len() - i,
        {
            let ghost before = out@;
            if chars_equal(&self.entries[i].0, prefix) || starts_with(&self.entries[i].0, &sep) {
                let src = &self.entries[i].1;
                let mut j: usize = 0;
                while j < src.len()
                    invariant
                        j <= src@.len(),
                        out@ == before + src@.subrange(0, j as int),
                    decreases src@.len() - j,
                {
                    out.push(src[j]);
                    j = j + 1;
                    assert(out@ =~= before + src@.subrange(0, j as int));
                }
                assert(src@.subrange(0, src@.len() as int) =~= src@);
            }
            proof {
                let ks = self.keys().subrange(0, i + 1);
                let ls = self.lists().subrange(0, i + 1);
                assert(ks.drop_last() =~= self.keys().subrange(0, i as int));
                assert(ls.drop_last() =~= self.lists().subrange(0, i as int));
                assert(ks.last() == self.entries@[i as int].0@);
                assert(ls.last() == self.entries@[i as int].1@);
                assert(out@ =~= prefix_rows(ks, ls, prefix@));
            }
            i = i + 1;
        }
        assert(self.keys().subrange(0, self.entries@.len() as int) =~= self.keys());
        assert(self.lists().subrange(0, self.entries@.len() as int) =~= self.lists());
        out
    }
}

/// The elements of `src` other than `x`, in order.
pub fn copy_without(src: &Vec<usize>, x: usize) -> (r: Vec<usize>)
    ensures
        r@ == without(src@, x),
{
    let mut out: Vec<usize> = Vec::new();
    let mut j: usize = 0;
    while j < src.len()
        invariant
            j <= src@.len(),
            out@ == without(src@.subrange(0, j as int), x),
        decreases src@.len() - j,
    {
        if src[j] != x {
            out.push(src[j]);
        }
        j = j + 1;
        assert(src@.subrange(0, j as int).drop_last() =~= src@.subrange(0, j - 1));
    }
    assert(src@.subrange(0, src@.len() as int) =~= src@);
    out
}

} // verus!
