//! Tables: columns, stored row versions and the counters of serial columns.

use vstd::prelude::*;
use crate::catalog::column::{Column, find_column, first_column_named};
use crate::catalog::data_type::{DataType, is_serial};
use crate::catalog::error::DatabaseError;
use crate::catalog::names::NameMap;
use crate::catalog::row::Row;

verus! {

/// Where a table keeps its rows.
#[derive(Clone, Copy, Debug, PartialEq, Eq, Structural)]
pub enum StorageMode {
    /// In a vector in memory.
    InMemory,
    /// In pages.
    PageBased,
}

/// A table.
#[derive(Clone, Debug)]
pub struct Table {
    pub name: String,
    pub columns: Vec<Column>,
    /// The stored row versions.
    pub rows: Vec<Row>,
    /// For each serial column, the next value its sequence hands out.
    pub sequences: NameMap<i64>,
    /// The user who created the table.
    pub owner: String,
}

/// Whether `k` names a serial column of `cols`.
pub open spec fn serial_column(cols: Seq<Column>, k: Seq<char>) -> bool {
    exists|i: int| 0 <= i < cols.len() && cols[i].name@ == k && is_serial(cols[i].data_type)
}

impl Table {
    pub open spec fn wf(&self) -> bool {
        self.sequences.wf()
    }

    /// A table owned by `owner`, with no rows, whose serial columns all start at 1.
    pub fn new_with_owner(name: String, columns: Vec<Column>, owner: String) -> (t: Self)
        ensures
            t.wf(),
            t.name@ == name@,
            t.columns@ == columns@,
            t.rows@.len() == 0,
            t.owner@ == owner@,
            forall|k: Seq<char>| #[trigger] t.sequences@.contains_key(k) <==> serial_column(columns@, k),
            forall|k: Seq<char>| #[trigger] t.sequences@.contains_key(k) ==> t.sequences@[k] == 1,
    {
        let mut sequences: NameMap<i64> = NameMap::new();
        let mut i: usize = 0;
        while i < columns.len()
            invariant
                i <= columns@.len(),
                sequences.wf(),
                forall|k: Seq<char>| #[trigger] sequences@.contains_key(k) <==> serial_column(columns@.subrange(0, i as int), k),
                forall|k: Seq<char>| #[trigger] sequences@.contains_key(k) ==> sequences@[k] == 1,
            decreases columns@.len() - i,
        {
            let serial = match columns[i].data_type {
                DataType::Serial | DataType::BigSerial => true,
                _ => false,
            };
            if serial {
                sequences.insert(columns[i].name.clone(), 1);
            }
            proof {
                let pre = columns@.subrange(0, i as int);
                let post = columns@.subrange(0, i + 1);
                assert forall|k: Seq<char>| serial_column(post, k) <==> (serial_column(pre, k)
                    || (columns@[i as int].name@ == k && is_serial(columns@[i as int].data_type))) by {
                    if serial_column(post, k) {
                        let j = choose|j: int| 0 <= j < post.len() && post[j].name@ == k && is_serial(post[j].data_type);
                        if j < i { assert(pre[j] == post[j]); }
                    }
                    if serial_column(pre, k) {
                        let j = choose|j: int| 0 <= j < pre.len() && pre[j].name@ == k && is_serial(pre[j].data_type);
                        assert(post[j] == pre[j]);
                    }
                    if columns@[i as int].name@ == k && is_serial(columns@[i as int].data_type) {
                        assert(post[i as int] == columns@[i as int]);
                    }
                }
            }
            i = i + 1;
        }
        assert(columns@.subrange(0, columns@.len() as int) =~= columns@);
        Table { name, columns, rows: Vec::new(), sequences, owner }
    }

    /// A table owned by "postgres", with no rows, whose serial columns all start at 1.
    pub fn new(name: String, columns: Vec<Column>) -> (t: Self)
        ensures
            t.wf(),
            t.name@ == name@,
            t.columns@ == columns@,
            t.rows@.len() == 0,
            t.owner@ == "postgres"@,
            forall|k: Seq<char>| #[trigger] t.sequences@.contains_key(k) <==> serial_column(columns@, k),
            forall|k: Seq<char>| #[trigger] t.sequences@.contains_key(k) ==> t.sequences@[k] == 1,
    {
        Self::new_with_owner(name, columns, "postgres".to_owned())
    }

    /// Appends a row version, which must have one value per column.
    pub fn insert(&mut self, row: Row) -> (r: Result<(), DatabaseError>)
        ensures
            row.values@.len() == old(self).columns@.len() ==> r is Ok && final(self).rows@ == old(self).rows@.push(row),
            row.values@.len() != old(self).columns@.len() ==> r == Err::<(), DatabaseError>(DatabaseError::ColumnCountMismatch)
                && final(self).rows@ == old(self).rows@,
            final(self).columns == old(self).columns,
            final(self).name == old(self).name,
            final(self).owner == old(self).owner,
            final(self).sequences == old(self).sequences,
    {
        if row.values.len() != self.columns.len() {
            return Err(DatabaseError::ColumnCountMismatch);
        }
        self.rows.push(row);
        Ok(())
    }

    /// The position of the first column named `name`.
    pub fn get_column_index(&self, name: &str) -> (r: Option<usize>)
        ensures
            r.is_some() == first_column_named(self.columns@, name@).is_some(),
            r.is_some() ==> r.unwrap() as int == first_column_named(self.columns@, name@).unwrap(),
            match r {
                Some(i) => i < self.columns@.len() && self.columns@[i as int].name@ == name@,
                None => forall|j: int| 0 <= j < self.columns@.len() ==> self.columns@[j].name@ != name@,
            },
    {
        find_column(&self.columns, name)
    }
}

} // verus!
