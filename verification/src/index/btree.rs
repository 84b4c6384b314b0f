//! B-tree indexes: keys kept in ascending order, so that a composite index can
//! be searched by a prefix of its columns.

use vstd::prelude::*;
use crate::catalog::error::DatabaseError;
use crate::catalog::value::Value;
use crate::index::keys::{btree_composite_key, btree_composite_key_of, btree_key, btree_key_of};
use crate::index::postings::{PostingList, removed_row, rows_under};
use crate::text::{decimal, fmt_usize, push_str, string_of};

verus! {

/// The message of a duplicate key in the B-tree index `name`.
pub open spec fn btree_duplicate_message(name: Seq<char>) -> Seq<char> {
    "Duplicate key value violates unique constraint '"@ + name + "'"@
}

/// The message of a composite key with the wrong number of values.
pub open spec fn arity_message(expected: nat, got: nat) -> Seq<char> {
    "Expected "@ + decimal(expected) + " values for composite index, got "@ + decimal(got)
}

/// The message of a composite key with the wrong number of values.
pub fn arity_error(expected: usize, got: usize) -> (e: DatabaseError)
    ensures
        e matches DatabaseError::ParseError(m) && m@ == arity_message(expected as nat, got as nat),
{
    let mut out: Vec<char> = Vec::new();
    push_str(&mut out, "Expected ");
    let a = fmt_usize(expected);
    push_str(&mut out, a.as_str());
    push_str(&mut out, " values for composite index, got ");
    let b = fmt_usize(got);
    push_str(&mut out, b.as_str());
    assert(out@ =~= arity_message(expected as nat, got as nat));
    DatabaseError::ParseError(string_of(&out))
}

/// A B-tree index over one or more columns of a table: from key to the
/// positions of the rows carrying it.
#[derive(Clone, Debug)]
pub struct BTreeIndex {
    pub name: String,
    pub table_name: String,
    /// The indexed columns (one, or several for a composite index).
    pub column_names: Vec<String>,
    pub is_unique: bool,
    /// For each key, the row positions filed under it, keys ascending.
    pub tree: PostingList,
}

impl BTreeIndex {
    pub closed spec fn wf(&self) -> bool {
        self.tree.wf() && self.tree.is_ordered()
    }

    /// For each key, the row positions filed under it.
    pub closed spec fn postings(&self) -> Map<Seq<char>, Seq<usize>> {
        self.tree@
    }

    /// The number of row positions filed.
    pub closed spec fn total(&self) -> nat {
        self.tree.total()
    }

    /// No key is filed with an empty list of rows.
    pub proof fn lemma_postings_nonempty(&self)
        requires
            self.wf(),
        ensures
            forall|k: Seq<char>| #[trigger] self.postings().contains_key(k) ==> self.postings()[k].len() > 0,
    {
        self.tree.lemma_lists_nonempty();
    }

    /// The rows of each key count toward the total, and there are no more
    /// keys than rows.
    pub proof fn lemma_total_bounds(&self, k: Seq<char>)
        requires
            self.wf(),
        ensures
            rows_under(self.postings(), k).len() <= self.total(),
            self.postings().len() <= self.total(),
    {
        self.tree.lemma_list_within_total(k);
        self.tree.lemma_keys_within_total();
    }

    /// The row positions filed under keys whose leading columns are `prefix`
    /// (see `column_prefix`), in ascending key order.
    pub closed spec fn with_prefix(&self, prefix: Seq<char>) -> Seq<usize> {
        self.tree.with_prefix(prefix)
    }

    /// An empty index over one column.
    pub fn new(name: String, table_name: String, column_name: String, is_unique: bool) -> (ix: Self)
        ensures
            ix.wf(),
            ix.name@ == name@,
            ix.table_name@ == table_name@,
            ix.column_names@.len() == 1,
            ix.column_names@[0]@ == column_name@,
            ix.is_unique == is_unique,
            ix.postings() == Map::<Seq<char>, Seq<usize>>::empty(),
            ix.total() == 0,
    {
        let mut column_names = Vec::new();
        column_names.push(column_name);
        BTreeIndex { name, table_name, column_names, is_unique, tree: PostingList::new(true) }
    }

    /// An empty index over the given columns.
    pub fn new_composite(name: String, table_name: String, column_names: Vec<String>, is_unique: bool) -> (ix: Self)
        ensures
            ix.wf(),
            ix.name@ == name@,
            ix.table_name@ == table_name@,
            ix.column_names@ == column_names@,
            ix.is_unique == is_unique,
            ix.postings() == Map::<Seq<char>, Seq<usize>>::empty(),
            ix.total() == 0,
    {
        BTreeIndex { name, table_name, column_names, is_unique, tree: PostingList::new(true) }
    }

    /// The first indexed column.
    pub fn column_name(&self) -> (c: &str)
        requires
            self.column_names@.len() > 0,
        ensures
            c@ == self.column_names@[0]@,
    {
        self.column_names[0].as_str()
    }

    /// Whether the index covers several columns.
    pub fn is_composite(&self) -> (b: bool)
        ensures
            b == (self.column_names@.len() > 1),
    {
        self.column_names.len() > 1
    }

    fn duplicate_error(&self) -> (e: DatabaseError)
        ensures
            e matches DatabaseError::UniqueViolation(m) && m@ == btree_duplicate_message(self.name@),
    {
        let mut out: Vec<char> = Vec::new();
        push_str(&mut out, "Duplicate key value violates unique constraint '");
        push_str(&mut out, self.name.as_str());
        push_str(&mut out, "'");
        assert(out@ =~= btree_duplicate_message(self.name@));
        DatabaseError::UniqueViolation(string_of(&out))
    }

    /// Files row `row_index` under `key`, unless the index is unique and the key is taken.
    fn file(&mut self, key: Vec<char>, row_index: usize) -> (r: Result<(), DatabaseError>)
        requires
            old(self).wf(),
        ensures
            final(self).wf(),
            final(self).name == old(self).name,
            final(self).table_name == old(self).table_name,
            final(self).column_names == old(self).column_names,
            final(self).is_unique == old(self).is_unique,
            (old(self).is_unique && old(self).postings().contains_key(key@)) <==> r is Err,
            r is Err ==> final(self).postings() == old(self).postings()
                && (r matches Err(DatabaseError::UniqueViolation(m)) && m@ == btree_duplicate_message(old(self).name@)),
            r is Ok ==> final(self).postings() == old(self).postings().insert(key@, rows_under(old(self).postings(), key@).push(row_index)),
            r is Ok ==> final(self).total() == old(self).total() + 1,
            r is Err ==> final(self).total() == old(self).total(),
    {
        if self.is_unique && self.tree.contains(&key) {
            return Err(self.duplicate_error());
        }
        self.tree.add(key, row_index);
        Ok(())
    }

    /// Files row `row_index` under the key of `value`; a unique index refuses a key it holds.
    pub fn insert(&mut self, value: &Value, row_index: usize) -> (r: Result<(), DatabaseError>)
        requires
            old(self).wf(),
        ensures
            final(self).wf(),
            final(self).name == old(self).name,
            final(self).table_name == old(self).table_name,
            final(self).column_names == old(self).column_names,
            final(self).is_unique == old(self).is_unique,
            (old(self).is_unique && old(self).postings().contains_key(btree_key_of(*value))) <==> r is Err,
            r is Err ==> final(self).postings() == old(self).postings()
                && (r matches Err(DatabaseError::UniqueViolation(m)) && m@ == btree_duplicate_message(old(self).name@)),
            r is Ok ==> final(self).postings() == old(self).postings().insert(
                btree_key_of(*value),
                rows_under(old(self).postings(), btree_key_of(*value)).push(row_index),
            ),
            r is Ok ==> final(self).total() == old(self).total() + 1,
            r is Err ==> final(self).total() == old(self).total(),
    {
        let key = btree_key(value);
        self.file(key, row_index)
    }

    /// Takes row `row_index` out of the key of `value`; a key left with no row is dropped.
    pub fn delete(&mut self, value: &Value, row_index: usize)
        requires
            old(self).wf(),
        ensures
            final(self).wf(),
            final(self).name == old(self).name,
            final(self).table_name == old(self).table_name,
            final(self).column_names == old(self).column_names,
            final(self).is_unique == old(self).is_unique,
            final(self).postings() == removed_row(old(self).postings(), btree_key_of(*value), row_index),
            final(self).total() + rows_under(old(self).postings(), btree_key_of(*value)).len()
                == old(self).total() + rows_under(final(self).postings(), btree_key_of(*value)).len(),
    {
        let key = btree_key(value);
        self.tree.remove_row(&key, row_index);
    }

    /// The row positions filed under the key of `value`, in the order they were filed.
    pub fn search(&self, value: &Value) -> (r: Vec<usize>)
        requires
            self.wf(),
        ensures
            r@ == rows_under(self.postings(), btree_key_of(*value)),
    {
        let key = btree_key(value);
        self.tree.rows(&key)
    }

    /// Whether some row is filed under the key of `value`.
    pub fn contains(&self, value: &Value) -> (b: bool)
        ensures
            b == self.postings().contains_key(btree_key_of(*value)),
    {
        let key = btree_key(value);
        self.tree.contains(&key)
    }

    /// The number of distinct keys.
    pub fn key_count(&self) -> (n: usize)
        requires
            self.wf(),
        ensures
            n == self.postings().len(),
    {
        self.tree.key_count()
    }

    /// The number of row positions filed, counting each key's rows.
    pub fn entry_count(&self) -> (n: usize)
        requires
            self.total() <= usize::MAX,
        ensures
            n == self.total(),
    {
        self.tree.entry_count()
    }

    /// Removes every entry.
    pub fn clear(&mut self)
        requires
            old(self).wf(),
        ensures
            final(self).wf(),
            final(self).postings() == Map::<Seq<char>, Seq<usize>>::empty(),
            final(self).total() == 0,
            final(self).name == old(self).name,
            final(self).table_name == old(self).table_name,
            final(self).column_names == old(self).column_names,
            final(self).is_unique == old(self).is_unique,
    {
        self.tree.clear();
    }

    /// Files row `row_index` under the composite key of `values`, which must hold
    /// one value per indexed column; a unique index refuses a key it holds.
    pub fn insert_composite(&mut self, values: &[Value], row_index: usize) -> (r: Result<(), DatabaseError>)
        requires
            old(self).wf(),
        ensures
            final(self).wf(),
            final(self).name == old(self).name,
            final(self).table_name == old(self).table_name,
            final(self).column_names == old(self).column_names,
            final(self).is_unique == old(self).is_unique,
            values@.len() != old(self).column_names@.len() ==> final(self).postings() == old(self).postings()
                && (r matches Err(DatabaseError::ParseError(m))
                    && m@ == arity_message(old(self).column_names@.len(), values@.len())),
            values@.len() == old(self).column_names@.len() ==> {
                &&& (old(self).is_unique && old(self).postings().contains_key(btree_composite_key_of(values@))) <==> r is Err
                &&& r is Err ==> final(self).postings() == old(self).postings()
                    && (r matches Err(DatabaseError::UniqueViolation(m)) && m@ == btree_duplicate_message(old(self).name@))
                &&& r is Ok ==> final(self).postings() == old(self).postings().insert(
                    btree_composite_key_of(values@),
                    rows_under(old(self).postings(), btree_composite_key_of(values@)).push(row_index),
                )
            },
            r is Ok ==> final(self).total() == old(self).total() + 1,
            r is Err ==> final(self).total() == old(self).total(),
    {
        if values.len() != self.column_names.len() {
            return Err(arity_error(self.column_names.len(), values.len()));
        }
        let key = btree_composite_key(values);
        self.file(key, row_index)
    }

    /// Takes row `row_index` out of the composite key of `values`; values of the
    /// wrong number leave the index unchanged.
    pub fn delete_composite(&mut self, values: &[Value], row_index: usize)
        requires
            old(self).wf(),
        ensures
            final(self).wf(),
            final(self).name == old(self).name,
            final(self).table_name == old(self).table_name,
            final(self).column_names == old(self).column_names,
            final(self).is_unique == old(self).is_unique,
            final(self).postings() == if values@.len() == old(self).column_names@.len() {
                removed_row(old(self).postings(), btree_composite_key_of(values@), row_index)
            } else {
                old(self).postings()
            },
            values@.len() == old(self).column_names@.len() ==> final(self).total() + rows_under(old(self).postings(), btree_composite_key_of(values@)).len()
                == old(self).total() + rows_under(final(self).postings(), btree_composite_key_of(values@)).len(),
            values@.len() != old(self).column_names@.len() ==> final(self).total() == old(self).total(),
    {
        if values.len() != self.column_names.len() {
            return;
        }
        let key = btree_composite_key(values);
        self.tree.remove_row(&key, row_index);
    }

    /// The row positions filed under the composite key of `values` (none for
    /// values of the wrong number).
    pub fn search_composite(&self, values: &[Value]) -> (r: Vec<usize>)
        requires
            self.wf(),
        ensures
            r@ == if values@.len() == self.column_names@.len() {
                rows_under(self.postings(), btree_composite_key_of(values@))
            } else {
                Seq::<usize>::empty()
            },
    {
        if values.len() != self.column_names.len() {
            return Vec::new();
        }
        let key = btree_composite_key(values);
        self.tree.rows(&key)
    }

    /// The row positions of every key whose leading columns hold `values` (a
    /// leading part of the indexed columns), in ascending key order.
    pub fn search_prefix(&self, values: &[Value]) -> (r: Vec<usize>)
        ensures
            r@ == if values@.len() == 0 || values@.len() > self.column_names@.len() {
                Seq::<usize>::empty()
            } else {
                self.with_prefix(btree_composite_key_of(values@))
            },
    {
        if values.len() == 0 || values.len() > self.column_names.len() {
            return Vec::new();
        }
        let prefix = btree_composite_key(values);
        self.tree.scan_prefix(&prefix)
    }
}

} // verus!
