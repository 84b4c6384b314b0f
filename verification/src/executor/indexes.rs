//! CREATE INDEX and DROP INDEX.

use vstd::prelude::*;
use crate::catalog::column::{Column, find_column, first_column_named};
use crate::catalog::database::Database;
use crate::catalog::error::DatabaseError;
use crate::catalog::row::Row;
use crate::catalog::value::{Value, identical};
use crate::executor::QueryResult;
use crate::executor::explain::first_where;
use crate::index::{Index, IndexType};
use crate::index::btree::{BTreeIndex, btree_duplicate_message};
use crate::index::hash::{HashIndex, hash_duplicate_message};
use crate::index::keys::{btree_key_of, hash_key_of, joined};
use crate::index::postings::rows_under;
use crate::text::{join_with, push_joined, push_str, string_of, string_views};

verus! {

/// The key an index of kind `t` files a value under.
pub open spec fn kind_key(t: IndexType, v: Value) -> Seq<char> {
    match t {
        IndexType::BTree => btree_key_of(v),
        IndexType::Hash => hash_key_of(v),
    }
}

/// The key an index of kind `t` over the columns at positions `pos` files a
/// row with values `vals` under.
pub open spec fn row_key(t: IndexType, vals: Seq<Value>, pos: Seq<int>) -> Seq<char> {
    if pos.len() > 1 {
        joined(pos.map_values(|p: int| kind_key(t, vals[p])))
    } else {
        kind_key(t, vals[pos[0]])
    }
}

/// The keys of the rows of a table, in row order.
pub open spec fn row_keys(t: IndexType, rows: Seq<Row>, pos: Seq<int>) -> Seq<Seq<char>> {
    rows.map_values(|r: Row| row_key(t, r.values@, pos))
}

/// The positions, in order, at which `k` occurs in `keys`.
pub open spec fn positions_of(keys: Seq<Seq<char>>, k: Seq<char>) -> Seq<usize>
    decreases keys.len(),
{
    if keys.len() == 0 {
        Seq::empty()
    } else {
        positions_of(keys.drop_last(), k) + if keys.last() == k { seq![(keys.len() - 1) as usize] } else { Seq::empty() }
    }
}

/// Each key of `keys` with the positions at which it occurs.
pub open spec fn postings_of(keys: Seq<Seq<char>>) -> Map<Seq<char>, Seq<usize>> {
    Map::new(|k: Seq<char>| keys.contains(k), |k: Seq<char>| positions_of(keys, k))
}

/// Some key occurs twice.
pub open spec fn has_repeat(keys: Seq<Seq<char>>) -> bool {
    exists|i: int, j: int| 0 <= i < j < keys.len() && keys[i] == keys[j]
}

/// The column positions of `names` in `cols`.
pub open spec fn column_positions(cols: Seq<Column>, names: Seq<String>) -> Seq<int> {
    names.map_values(|n: String| first_column_named(cols, n@)->0)
}

/// Whether the table has no column of the name.
pub open spec fn column_missing(cols: Seq<Column>) -> spec_fn(String) -> bool {
    |n: String| first_column_named(cols, n@) is None
}

/// The message of a duplicate key in an index of kind `t` named `name`.
pub open spec fn duplicate_message(t: IndexType, name: Seq<char>) -> Seq<char> {
    match t {
        IndexType::BTree => btree_duplicate_message(name),
        IndexType::Hash => hash_duplicate_message(name),
    }
}

/// The name of a kind of index.
pub open spec fn kind_label(t: IndexType) -> Seq<char> {
    match t {
        IndexType::BTree => "btree"@,
        IndexType::Hash => "hash"@,
    }
}

/// The message of a created index.
pub open spec fn created_message(name: Seq<char>, table: Seq<char>, columns: Seq<String>, t: IndexType) -> Seq<char> {
    "Index '"@ + name + "' created on "@ + table + ".("@ + join_with(string_views(columns), ", "@) + ") using "@ + kind_label(t)
}

/// The message of an index created twice.
pub open spec fn index_exists_message(name: Seq<char>) -> Seq<char> {
    "Index '"@ + name + "' already exists"@
}

/// The message of an index that is not there.
pub open spec fn index_missing_message(name: Seq<char>) -> Seq<char> {
    "Index '"@ + name + "' does not exist"@
}

/// Every row of `table` holds a value at each position of a named column.
pub open spec fn rows_reach(db: Database, table: Seq<char>, names: Seq<String>) -> bool {
    db.tables@.contains_key(table) ==> {
        let t = db.tables@[table];
        forall|i: int, j: int| 0 <= i < t.rows@.len() && 0 <= j < names.len()
            && #[trigger] first_column_named(t.columns@, names[j]@) is Some
            ==> first_column_named(t.columns@, names[j]@)->0 < (#[trigger] t.rows@[i]).values@.len()
    }
}

/// The index of kind `t` named `name` over `columns` of `table` that a
/// CREATE INDEX builds, filing `keys`.
pub open spec fn built_index(ix: Index, t: IndexType, name: Seq<char>, table: Seq<char>, columns: Seq<String>,
    unique: bool, keys: Seq<Seq<char>>) -> bool {
    &&& ix.wf()
    &&& (ix is BTree <==> t == IndexType::BTree)
    &&& ix.spec_name() == name
    &&& ix.spec_table_name() == table
    &&& string_views(ix.spec_columns()) == string_views(columns)
    &&& ix.spec_unique() == unique
    &&& ix.postings() == postings_of(keys)
}

/// Adding one more key: its position joins the positions already filed under it.
pub proof fn lemma_postings_step(keys: Seq<Seq<char>>, i: int)
    requires
        0 <= i < keys.len(),
        i < usize::MAX,
    ensures
        postings_of(keys.take(i + 1)) == postings_of(keys.take(i)).insert(
            keys[i],
            rows_under(postings_of(keys.take(i)), keys[i]).push(i as usize),
        ),
{
    let a = keys.take(i + 1);
    let b = keys.take(i);
    assert(a.drop_last() =~= b);
    assert forall|k: Seq<char>| a.contains(k) <==> (b.contains(k) || k == keys[i]) by {
        if a.contains(k) {
            let m = choose|m: int| 0 <= m < a.len() && a[m] == k;
            if m < i {
                assert(b[m] == k);
            }
        }
        if b.contains(k) {
            let m = choose|m: int| 0 <= m < b.len() && b[m] == k;
            assert(a[m] == k);
        }
        if k == keys[i] {
            assert(a[i] == k);
        }
    }
    let expected = postings_of(b).insert(keys[i], rows_under(postings_of(b), keys[i]).push(i as usize));
    assert forall|k: Seq<char>| #[trigger] postings_of(a).contains_key(k) implies postings_of(a)[k] == expected[k] by {
        if k == keys[i] {
            if !b.contains(k) {
                lemma_positions_absent(b, k);
            }
            assert(positions_of(a, k) =~= rows_under(postings_of(b), k).push(i as usize));
        } else {
            assert(positions_of(a, k) =~= positions_of(b, k));
        }
    }
    assert(postings_of(a) =~= expected);
}

/// A key that does not occur has no positions.
pub proof fn lemma_positions_absent(keys: Seq<Seq<char>>, k: Seq<char>)
    requires
        !keys.contains(k),
    ensures
        positions_of(keys, k) == Seq::<usize>::empty(),
    decreases keys.len(),
{
    if keys.len() > 0 {
        assert(!keys.drop_last().contains(k)) by {
            if keys.drop_last().contains(k) {
                let m = choose|m: int| 0 <= m < keys.drop_last().len() && keys.drop_last()[m] == k;
                assert(keys[m] == k);
            }
        }
        lemma_positions_absent(keys.drop_last(), k);
        assert(keys[keys.len() - 1] != k);
    }
}

/// Runs CREATE INDEX and DROP INDEX.
pub struct IndexExecutor;

impl IndexExecutor {
    /// CREATE INDEX: a B-tree or hash index named `name` on `column_names` of
    /// `table_name`, filled with the table's rows.
    pub fn create_index(db: &mut Database, name: String, table_name: String, column_names: Vec<String>,
        unique: bool, index_type: IndexType) -> (r: Result<QueryResult, DatabaseError>)
        requires
            old(db).wf(),
            column_names@.len() > 0,
            rows_reach(*old(db), table_name@, column_names@),
        ensures
            final(db).wf(),
            r is Err ==> *final(db) == *old(db),
            old(db).indexes@.contains_key(name@) ==>
                (r matches Err(DatabaseError::ParseError(m)) && m@ == index_exists_message(name@)),
            !old(db).indexes@.contains_key(name@) && !old(db).tables@.contains_key(table_name@) ==>
                (r matches Err(DatabaseError::TableNotFound(n)) && n@ == table_name@),
            !old(db).indexes@.contains_key(name@) && old(db).tables@.contains_key(table_name@) ==> {
                let t = old(db).tables@[table_name@];
                let keys = row_keys(index_type, t.rows@, column_positions(t.columns@, column_names@));
                match first_where(column_names@, column_missing(t.columns@)) {
                    Some(j) => r matches Err(DatabaseError::ColumnNotFound(n)) && n@ == column_names@[j]@,
                    None => if unique && has_repeat(keys) {
                        r matches Err(DatabaseError::UniqueViolation(m)) && m@ == duplicate_message(index_type, name@)
                    } else {
                        &&& r matches Ok(QueryResult::Success(m))
                            && m@ == created_message(name@, table_name@, column_names@, index_type)
                        &&& final(db).indexes@ == old(db).indexes@.insert(name@, final(db).indexes@[name@])
                        &&& built_index(final(db).indexes@[name@], index_type, name@, table_name@, column_names@, unique, keys)
                        &&& final(db).tables == old(db).tables
                        &&& final(db).name == old(db).name
                        &&& final(db).enums == old(db).enums
                        &&& final(db).views == old(db).views
                        &&& final(db).table_metadata == old(db).table_metadata
                    },
                }
            },
    {
        if db.indexes.contains_key(name.as_str()) {
            return Err(Self::exists_error(name.as_str()));
        }
        let table = match db.get_table(table_name.as_str()) {
            Some(t) => t,
            None => return Err(DatabaseError::TableNotFound(table_name)),
        };
        let ghost cols = table.columns@;
        let ghost missing = column_missing(cols);
        let mut column_indices: Vec<usize> = Vec::new();
        let mut j: usize = 0;
        while j < column_names.len()
            invariant
                old(db).wf(),
                *db == *old(db),
                !old(db).indexes@.contains_key(name@),
                old(db).tables@.contains_key(table_name@),
                *table == old(db).tables@[table_name@],
                j <= column_names@.len(),
                cols == table.columns@,
                missing == column_missing(cols),
                first_where(column_names@.take(j as int), missing) is None,
                column_indices@.len() == j,
                forall|m: int| 0 <= m < j ==> column_indices@[m] as int == #[trigger] column_positions(cols, column_names@)[m],
            decreases column_names@.len() - j,
        {
            let found = find_column(&table.columns, column_names[j].as_str());
            proof {
                crate::executor::explain::lemma_first_where_step(column_names@, missing, j as int);
            }
            match found {
                Some(p) => {
                    column_indices.push(p);
                },
                None => {
                    proof {
                        crate::executor::explain::lemma_first_where_prefix(column_names@, missing, j as int + 1, column_names@.len() as int);
                        assert(column_names@.take(column_names@.len() as int) =~= column_names@);
                    }
                    return Err(DatabaseError::ColumnNotFound(column_names[j].clone()));
                },
            }
            j = j + 1;
        }
        assert(column_names@.take(column_names@.len() as int) =~= column_names@);
        let ghost pos = column_positions(cols, column_names@);
        proof {
            crate::executor::explain::lemma_first_where_none(column_names@, missing);
            assert forall|i: int, m: int| 0 <= i < table.rows@.len() && 0 <= m < column_indices@.len()
                implies #[trigger] column_indices@[m] < (#[trigger] table.rows@[i]).values@.len() by {
                assert(!missing(column_names@[m]));
                assert(first_column_named(cols, column_names@[m]@) is Some);
                assert(column_indices@[m] as int == pos[m]);
            }
        }
        assert(column_indices@.map_values(|p: usize| p as int) =~= pos);
        let is_composite = column_names.len() > 1;
        let mut index = if is_composite {
            match index_type {
                IndexType::BTree => Index::BTree(BTreeIndex::new_composite(name.clone(), table_name.clone(), column_names.clone(), unique)),
                IndexType::Hash => Index::Hash(HashIndex::new_composite(name.clone(), table_name.clone(), column_names.clone(), unique)),
            }
        } else {
            match index_type {
                IndexType::BTree => Index::BTree(BTreeIndex::new(name.clone(), table_name.clone(), column_names[0].clone(), unique)),
                IndexType::Hash => Index::Hash(HashIndex::new(name.clone(), table_name.clone(), column_names[0].clone(), unique)),
            }
        };
        assert(string_views(index.spec_columns()) =~= string_views(column_names@));
        let ghost keys = row_keys(index_type, table.rows@, pos);
        let n = table.rows.len();
        let mut row_idx: usize = 0;
        while row_idx < n
            invariant
                old(db).wf(),
                *db == *old(db),
                !old(db).indexes@.contains_key(name@),
                old(db).tables@.contains_key(table_name@),
                *table == old(db).tables@[table_name@],
                n == table.rows@.len(),
                row_idx <= n,
                first_where(column_names@, column_missing(cols)) is None,
                index.wf(),
                (index is BTree <==> index_type == IndexType::BTree),
                index.spec_name() == name@,
                index.spec_table_name() == table_name@,
                string_views(index.spec_columns()) == string_views(column_names@),
                index.spec_columns().len() == column_names@.len(),
                index.spec_unique() == unique,
                is_composite == (column_names@.len() > 1),
                column_names@.len() > 0,
                column_indices@.len() == column_names@.len(),
                pos == column_positions(cols, column_names@),
                cols == table.columns@,
                forall|m: int| 0 <= m < column_indices@.len() ==> column_indices@[m] as int == #[trigger] pos[m],
                forall|i: int, m: int| 0 <= i < n && 0 <= m < column_indices@.len()
                    ==> #[trigger] column_indices@[m] < (#[trigger] table.rows@[i]).values@.len(),
                keys == row_keys(index_type, table.rows@, pos),
                index.postings() == postings_of(keys.take(row_idx as int)),
                !(unique && has_repeat(keys.take(row_idx as int))),
            decreases n - row_idx,
        {
            let row = &table.rows[row_idx];
            let ghost key = keys[row_idx as int];
            let outcome = if is_composite {
                let mut values: Vec<Value> = Vec::new();
                let mut m: usize = 0;
                while m < column_indices.len()
                    invariant
                        m <= column_indices@.len(),
                        values@.len() == m,
                        forall|q: int| 0 <= q < column_indices@.len() ==> column_indices@[q] < row.values@.len(),
                        forall|q: int| 0 <= q < m ==> identical(#[trigger] values@[q], row.values@[column_indices@[q] as int]),
                    decreases column_indices@.len() - m,
                {
                    values.push(row.values[column_indices[m]].duplicate());
                    m = m + 1;
                }
                proof {
                    Self::lemma_composite_key(index, index_type, values@, row.values@, pos, column_indices@);
                }
                index.insert_composite(values.as_slice(), row_idx)
            } else {
                proof {
                    Self::lemma_single_key(index, index_type, row.values@, pos);
                }
                index.insert(&row.values[column_indices[0]], row_idx)
            };
            proof {
                lemma_postings_step(keys, row_idx as int);
                Self::lemma_repeat_step(keys, row_idx as int);
            }
            match outcome {
                Ok(()) => {},
                Err(e) => {
                    proof {
                        Self::lemma_repeat_grows(keys, row_idx as int + 1);
                    }
                    return Err(e);
                },
            }
            row_idx = row_idx + 1;
        }
        assert(keys.take(n as int) =~= keys);
        let ghost built = index;
        db.indexes.insert(name.clone(), index);
        let mut out: Vec<char> = Vec::new();
        push_str(&mut out, "Index '");
        push_str(&mut out, name.as_str());
        push_str(&mut out, "' created on ");
        push_str(&mut out, table_name.as_str());
        push_str(&mut out, ".(");
        push_joined(&mut out, column_names.as_slice(), ", ");
        push_str(&mut out, ") using ");
        push_str(&mut out, index_type.as_str());
        assert(out@ =~= created_message(name@, table_name@, column_names@, index_type));
        Ok(QueryResult::Success(string_of(&out)))
    }

    /// DROP INDEX.
    pub fn drop_index(db: &mut Database, name: String) -> (r: Result<QueryResult, DatabaseError>)
        requires
            old(db).wf(),
        ensures
            final(db).wf(),
            final(db).indexes@ == old(db).indexes@.remove(name@),
            final(db).tables == old(db).tables,
            old(db).indexes@.contains_key(name@) <==> r is Ok,
            r is Err ==> (r matches Err(DatabaseError::ParseError(m)) && m@ == index_missing_message(name@)),
            r is Ok ==> (r matches Ok(QueryResult::Success(m)) && m@ == "Index '"@ + name@ + "' dropped"@),
    {
        if db.indexes.remove(name.as_str()).is_none() {
            let mut out: Vec<char> = Vec::new();
            push_str(&mut out, "Index '");
            push_str(&mut out, name.as_str());
            push_str(&mut out, "' does not exist");
            return Err(DatabaseError::ParseError(string_of(&out)));
        }
        let mut out: Vec<char> = Vec::new();
        push_str(&mut out, "Index '");
        push_str(&mut out, name.as_str());
        push_str(&mut out, "' dropped");
        Ok(QueryResult::Success(string_of(&out)))
    }

    fn exists_error(name: &str) -> (e: DatabaseError)
        ensures
            e matches DatabaseError::ParseError(m) && m@ == index_exists_message(name@),
    {
        let mut out: Vec<char> = Vec::new();
        push_str(&mut out, "Index '");
        push_str(&mut out, name);
        push_str(&mut out, "' already exists");
        DatabaseError::ParseError(string_of(&out))
    }

    proof fn lemma_single_key(ix: Index, t: IndexType, vals: Seq<Value>, pos: Seq<int>)
        requires
            (ix is BTree <==> t == IndexType::BTree),
            pos.len() == 1,
        ensures
            ix.key_of(vals[pos[0]]) == row_key(t, vals, pos),
    {
    }

    proof fn lemma_composite_key(ix: Index, t: IndexType, values: Seq<Value>, vals: Seq<Value>, pos: Seq<int>, idx: Seq<usize>)
        requires
            (ix is BTree <==> t == IndexType::BTree),
            pos.len() > 1,
            idx.len() == pos.len(),
            values.len() == idx.len(),
            forall|q: int| 0 <= q < idx.len() ==> idx[q] as int == #[trigger] pos[q],
            forall|q: int| 0 <= q < idx.len() ==> identical(#[trigger] values[q], vals[idx[q] as int]),
        ensures
            ix.composite_key_of(values) == row_key(t, vals, pos),
    {
        assert forall|q: int| 0 <= q < values.len() implies kind_key(t, #[trigger] values[q]) == kind_key(t, vals[pos[q]]) by {
            assert(identical(values[q], vals[idx[q] as int]));
            Self::lemma_identical_key(t, values[q], vals[pos[q]]);
        }
        match ix {
            Index::BTree(_) => {
                assert(values.map_values(|v: Value| btree_key_of(v)) =~= pos.map_values(|p: int| kind_key(t, vals[p])));
            },
            Index::Hash(_) => {
                assert(values.map_values(|v: Value| hash_key_of(v)) =~= pos.map_values(|p: int| kind_key(t, vals[p])));
            },
        }
    }

    proof fn lemma_identical_key(t: IndexType, a: Value, b: Value)
        requires
            identical(a, b),
        ensures
            kind_key(t, a) == kind_key(t, b),
    {
    }

    proof fn lemma_repeat_step(keys: Seq<Seq<char>>, i: int)
        requires
            0 <= i < keys.len(),
        ensures
            !has_repeat(keys.take(i)) ==>
                (has_repeat(keys.take(i + 1)) <==> postings_of(keys.take(i)).contains_key(keys[i])),
    {
        if has_repeat(keys.take(i)) {
            return;
        }
        let a = keys.take(i + 1);
        let b = keys.take(i);
        if postings_of(b).contains_key(keys[i]) {
            let m = choose|m: int| 0 <= m < b.len() && b[m] == keys[i];
            assert(a[m] == a[i]);
        }
        if has_repeat(a) {
            let (x, y) = choose|x: int, y: int| 0 <= x < y < a.len() && a[x] == a[y];
            if y < i {
                assert(b[x] == b[y]);
            } else {
                assert(b[x] == keys[i]);
            }
        }
    }

    proof fn lemma_repeat_grows(keys: Seq<Seq<char>>, k: int)
        requires
            0 <= k <= keys.len(),
            has_repeat(keys.take(k)),
        ensures
            has_repeat(keys),
    {
        let (x, y) = choose|x: int, y: int| 0 <= x < y < keys.take(k).len() && keys.take(k)[x] == keys.take(k)[y];
        assert(keys[x] == keys[y]);
    }
}

} // verus!
