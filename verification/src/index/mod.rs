//! Secondary indexes: B-tree and hash indexes over one or more columns.

pub mod postings;
pub mod keys;
pub mod btree;
pub mod hash;

use vstd::prelude::*;
use crate::catalog::error::DatabaseError;
use crate::catalog::value::Value;
use crate::index::btree::{BTreeIndex, arity_message, btree_duplicate_message};
use crate::index::hash::{HashIndex, hash_duplicate_message};
use crate::index::keys::{btree_composite_key_of, btree_key_of, hash_composite_key_of, hash_key_of};
use crate::index::postings::{removed_row, rows_under};

verus! {

/// The kind of an index.
#[derive(Clone, Copy, Debug, PartialEq, Eq, Structural)]
pub enum IndexType {
    /// Keys kept in order: supports ranges and prefixes.
    BTree,
    /// Equality lookups only.
    Hash,
}

impl Default for IndexType {
    fn default() -> (t: Self)
        ensures
            t == IndexType::BTree,
    {
        IndexType::BTree
    }
}

impl IndexType {
    /// The name of the kind: "btree" or "hash".
    pub fn as_str(&self) -> (s: &'static str)
        ensures
            s@ == match *self {
                IndexType::BTree => "btree"@,
                IndexType::Hash => "hash"@,
            },
    {
        match self {
            IndexType::BTree => "btree",
            IndexType::Hash => "hash",
        }
    }
}

/// An index of either kind.
#[derive(Clone, Debug)]
pub enum Index {
    BTree(BTreeIndex),
    Hash(HashIndex),
}

impl Index {
    pub open spec fn wf(&self) -> bool {
        match *self {
            Index::BTree(ix) => ix.wf(),
            Index::Hash(ix) => ix.wf(),
        }
    }

    /// For each key, the row positions filed under it.
    pub open spec fn postings(&self) -> Map<Seq<char>, Seq<usize>> {
        match *self {
            Index::BTree(ix) => ix.postings(),
            Index::Hash(ix) => ix.postings(),
        }
    }

    /// The key under which this index files `v`.
    pub open spec fn key_of(&self, v: Value) -> Seq<char> {
        match *self {
            Index::BTree(_) => btree_key_of(v),
            Index::Hash(_) => hash_key_of(v),
        }
    }

    /// The key under which this index files the values of a composite row.
    pub open spec fn composite_key_of(&self, vs: Seq<Value>) -> Seq<char> {
        match *self {
            Index::BTree(_) => btree_composite_key_of(vs),
            Index::Hash(_) => hash_composite_key_of(vs),
        }
    }

    pub open spec fn spec_name(&self) -> Seq<char> {
        match *self {
            Index::BTree(ix) => ix.name@,
            Index::Hash(ix) => ix.name@,
        }
    }

    pub open spec fn spec_table_name(&self) -> Seq<char> {
        match *self {
            Index::BTree(ix) => ix.table_name@,
            Index::Hash(ix) => ix.table_name@,
        }
    }

    pub open spec fn spec_columns(&self) -> Seq<String> {
        match *self {
            Index::BTree(ix) => ix.column_names@,
            Index::Hash(ix) => ix.column_names@,
        }
    }

    /// The message of a key this unique index already holds.
    pub open spec fn spec_duplicate_message(&self) -> Seq<char> {
        match *self {
            Index::BTree(ix) => btree_duplicate_message(ix.name@),
            Index::Hash(ix) => hash_duplicate_message(ix.name@),
        }
    }

    pub open spec fn spec_unique(&self) -> bool {
        match *self {
            Index::BTree(ix) => ix.is_unique,
            Index::Hash(ix) => ix.is_unique,
        }
    }

    /// Everything but the postings.
    pub open spec fn same_shape(&self, other: &Index) -> bool {
        &&& (self is BTree <==> other is BTree)
        &&& self.spec_name() == other.spec_name()
        &&& self.spec_table_name() == other.spec_table_name()
        &&& self.spec_columns() == other.spec_columns()
        &&& self.spec_unique() == other.spec_unique()
    }

    pub fn name(&self) -> (s: &str)
        ensures
            s@ == self.spec_name(),
    {
        match self {
            Index::BTree(ix) => ix.name.as_str(),
            Index::Hash(ix) => ix.name.as_str(),
        }
    }

    pub fn table_name(&self) -> (s: &str)
        ensures
            s@ == self.spec_table_name(),
    {
        match self {
            Index::BTree(ix) => ix.table_name.as_str(),
            Index::Hash(ix) => ix.table_name.as_str(),
        }
    }

    /// The first indexed column.
    pub fn column_name(&self) -> (s: &str)
        requires
            self.spec_columns().len() > 0,
        ensures
            s@ == self.spec_columns()[0]@,
    {
        match self {
            Index::BTree(ix) => ix.column_name(),
            Index::Hash(ix) => ix.column_name(),
        }
    }

    pub fn is_unique(&self) -> (b: bool)
        ensures
            b == self.spec_unique(),
    {
        match self {
            Index::BTree(ix) => ix.is_unique,
            Index::Hash(ix) => ix.is_unique,
        }
    }

    pub fn index_type(&self) -> (t: IndexType)
        ensures
            t == match *self {
                Index::BTree(_) => IndexType::BTree,
                Index::Hash(_) => IndexType::Hash,
            },
    {
        match self {
            Index::BTree(_) => IndexType::BTree,
            Index::Hash(_) => IndexType::Hash,
        }
    }

    /// No key is filed with an empty list of rows.
    pub proof fn lemma_postings_nonempty(&self)
        requires
            self.wf(),
        ensures
            forall|k: Seq<char>| #[trigger] self.postings().contains_key(k) ==> self.postings()[k].len() > 0,
    {
        match *self {
            Index::BTree(ix) => ix.lemma_postings_nonempty(),
            Index::Hash(ix) => ix.lemma_postings_nonempty(),
        }
    }

    /// Files row `row_index` under the key of `value`; a unique index refuses a key it holds.
    pub fn insert(&mut self, value: &Value, row_index: usize) -> (r: Result<(), DatabaseError>)
        requires
            old(self).wf(),
        ensures
            final(self).wf(),
            final(self).same_shape(old(self)),
            (old(self).spec_unique() && old(self).postings().contains_key(old(self).key_of(*value))) <==> r is Err,
            (old(self).spec_unique() && rows_under(old(self).postings(), old(self).key_of(*value)).len() > 0) <==> r is Err,
            r is Err ==> final(self).postings() == old(self).postings()
                && (r matches Err(DatabaseError::UniqueViolation(m)) && m@ == old(self).spec_duplicate_message()),
            r is Ok ==> final(self).postings() == old(self).postings().insert(
                old(self).key_of(*value),
                rows_under(old(self).postings(), old(self).key_of(*value)).push(row_index),
            ),
    {
        proof { self.lemma_postings_nonempty(); }
        match self {
            Index::BTree(ix) => ix.insert(value, row_index),
            Index::Hash(ix) => ix.insert(value, row_index),
        }
    }

    /// Takes row `row_index` out of the key of `value`.
    pub fn delete(&mut self, value: &Value, row_index: usize)
        requires
            old(self).wf(),
        ensures
            final(self).wf(),
            final(self).same_shape(old(self)),
            final(self).postings() == removed_row(old(self).postings(), old(self).key_of(*value), row_index),
    {
        match self {
            Index::BTree(ix) => ix.delete(value, row_index),
            Index::Hash(ix) => ix.delete(value, row_index),
        }
    }

    /// The row positions filed under the key of `value`.
    pub fn search(&self, value: &Value) -> (r: Vec<usize>)
        requires
            self.wf(),
        ensures
            r@ == rows_under(self.postings(), self.key_of(*value)),
    {
        match self {
            Index::BTree(ix) => ix.search(value),
            Index::Hash(ix) => ix.search(value),
        }
    }

    pub fn column_names(&self) -> (c: &[String])
        ensures
            c@ == self.spec_columns(),
    {
        match self {
            Index::BTree(ix) => ix.column_names.as_slice(),
            Index::Hash(ix) => ix.column_names.as_slice(),
        }
    }

    /// Whether the index covers several columns.
    pub fn is_composite(&self) -> (b: bool)
        ensures
            b == (self.spec_columns().len() > 1),
    {
        match self {
            Index::BTree(ix) => ix.is_composite(),
            Index::Hash(ix) => ix.is_composite(),
        }
    }

    /// Files row `row_index` under the composite key of `values`.
    pub fn insert_composite(&mut self, values: &[Value], row_index: usize) -> (r: Result<(), DatabaseError>)
        requires
            old(self).wf(),
        ensures
            final(self).wf(),
            final(self).same_shape(old(self)),
            values@.len() != old(self).spec_columns().len() ==> final(self).postings() == old(self).postings()
                && (r matches Err(DatabaseError::ParseError(m))
                    && m@ == arity_message(old(self).spec_columns().len(), values@.len())),
            values@.len() == old(self).spec_columns().len() ==> {
                &&& (old(self).spec_unique() && old(self).postings().contains_key(old(self).composite_key_of(values@))) <==> r is Err
                &&& (old(self).spec_unique() && rows_under(old(self).postings(), old(self).composite_key_of(values@)).len() > 0) <==> r is Err
                &&& r is Err ==> final(self).postings() == old(self).postings()
                    && (r matches Err(DatabaseError::UniqueViolation(m)) && m@ == old(self).spec_duplicate_message())
                &&& r is Ok ==> final(self).postings() == old(self).postings().insert(
                    old(self).composite_key_of(values@),
                    rows_under(old(self).postings(), old(self).composite_key_of(values@)).push(row_index),
                )
            },
    {
        proof { self.lemma_postings_nonempty(); }
        match self {
            Index::BTree(ix) => ix.insert_composite(values, row_index),
            Index::Hash(ix) => ix.insert_composite(values, row_index),
        }
    }

    /// Takes row `row_index` out of the composite key of `values`.
    pub fn delete_composite(&mut self, values: &[Value], row_index: usize)
        requires
            old(self).wf(),
        ensures
            final(self).wf(),
            final(self).same_shape(old(self)),
            final(self).postings() == if values@.len() == old(self).spec_columns().len() {
                removed_row(old(self).postings(), old(self).composite_key_of(values@), row_index)
            } else {
                old(self).postings()
            },
    {
        match self {
            Index::BTree(ix) => ix.delete_composite(values, row_index),
            Index::Hash(ix) => ix.delete_composite(values, row_index),
        }
    }

    /// The row positions filed under the composite key of `values`.
    pub fn search_composite(&self, values: &[Value]) -> (r: Vec<usize>)
        requires
            self.wf(),
        ensures
            r@ == if values@.len() == self.spec_columns().len() {
                rows_under(self.postings(), self.composite_key_of(values@))
            } else {
                Seq::<usize>::empty()
            },
    {
        match self {
            Index::BTree(ix) => ix.search_composite(values),
            Index::Hash(ix) => ix.search_composite(values),
        }
    }

    /// Prefix search: only composite B-tree indexes offer it.
    pub fn search_prefix(&self, values: &[Value]) -> (r: Option<Vec<usize>>)
        ensures
            match *self {
                Index::BTree(ix) => if ix.column_names@.len() > 1 {
                    r is Some && r.unwrap()@ == if values@.len() == 0 || values@.len() > ix.column_names@.len() {
                        Seq::<usize>::empty()
                    } else {
                        ix.with_prefix(btree_composite_key_of(values@))
                    }
                } else {
                    r is None
                },
                Index::Hash(_) => r is None,
            },
    {
        match self {
            Index::BTree(ix) => {
                if ix.is_composite() {
                    Some(ix.search_prefix(values))
                } else {
                    None
                }
            },
            Index::Hash(_) => None,
        }
    }
}

/// Filing a row under a key and then searching for that key finds the row, last.
pub proof fn law_search_after_insert(before: Map<Seq<char>, Seq<usize>>, after: Map<Seq<char>, Seq<usize>>, key: Seq<char>, row: usize)
    requires
        after == before.insert(key, rows_under(before, key).push(row)),
    ensures
        rows_under(after, key).last() == row,
        rows_under(after, key).len() == rows_under(before, key).len() + 1,
        forall|k: Seq<char>| k != key ==> rows_under(after, k) == rows_under(before, k),
{
}

/// Deleting a row from a key removes every occurrence of it there, and only there.
pub proof fn law_search_after_delete(before: Map<Seq<char>, Seq<usize>>, key: Seq<char>, row: usize)
    ensures
        !rows_under(removed_row(before, key, row), key).contains(row),
        forall|k: Seq<char>| k != key ==> rows_under(removed_row(before, key, row), k) == rows_under(before, k),
{
    lemma_without_drops(rows_under(before, key), row);
    if before.contains_key(key) {
        lemma_without_drops(before[key], row);
    }
}

/// `without(s, x)` holds no `x`.
pub proof fn lemma_without_drops(s: Seq<usize>, x: usize)
    ensures
        !crate::index::postings::without(s, x).contains(x),
    decreases s.len(),
{
    if s.len() > 0 {
        lemma_without_drops(s.drop_last(), x);
        let w = crate::index::postings::without(s.drop_last(), x);
        if s.last() != x {
            assert forall|i: int| 0 <= i < w.push(s.last()).len() implies w.push(s.last())[i] != x by {
                if i < w.len() { assert(w[i] != x) by { if w[i] == x { assert(w.contains(x)); } } }
            }
        }
    }
}

} // verus!
