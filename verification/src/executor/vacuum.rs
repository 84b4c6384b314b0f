//! VACUUM: removing the row versions no transaction can see any more.

use vstd::prelude::*;
use crate::catalog::database::Database;
use crate::catalog::error::DatabaseError;
use crate::catalog::row::{Row, dead_at, visible_at};
use crate::catalog::table::Table;
use crate::executor::QueryResult;
use crate::text::{decimal, fmt_usize, push_str, string_of};

verus! {

/// The versions of `rows` that are not dead at horizon `oldest`, in order.
pub open spec fn survivors(rows: Seq<Row>, oldest: u64) -> Seq<Row>
    decreases rows.len(),
{
    if rows.len() == 0 {
        Seq::empty()
    } else {
        survivors(rows.drop_last(), oldest) + if dead_at(rows.last(), oldest) { Seq::empty() } else { seq![rows.last()] }
    }
}

/// The number of row versions in the first `n` tables.
pub open spec fn rows_total(tables: Seq<Table>, n: nat) -> nat
    decreases n,
{
    if n == 0 { 0 } else { rows_total(tables, (n - 1) as nat) + tables[n - 1].rows@.len() }
}

/// The number of dead versions in the first `n` tables.
pub open spec fn dead_total(tables: Seq<Table>, n: nat, oldest: u64) -> nat
    decreases n,
{
    if n == 0 {
        0
    } else {
        dead_total(tables, (n - 1) as nat, oldest) + (tables[n - 1].rows@.len() - survivors(tables[n - 1].rows@, oldest).len()) as nat
    }
}

/// The message VACUUM answers with.
pub open spec fn vacuum_message(removed: nat) -> Seq<char> {
    "VACUUM complete. Removed "@ + decimal(removed) + " dead tuples."@
}

/// Runs VACUUM.
pub struct VacuumExecutor;

impl VacuumExecutor {
    /// Removes from `table` the versions dead at horizon `oldest_tx`; returns how many.
    pub fn vacuum_table(table: &mut Table, oldest_tx: u64) -> (removed: usize)
        ensures
            final(table).rows@ == survivors(old(table).rows@, oldest_tx),
            removed == old(table).rows@.len() - survivors(old(table).rows@, oldest_tx).len(),
            final(table).name == old(table).name,
            final(table).columns == old(table).columns,
            final(table).sequences == old(table).sequences,
            final(table).owner == old(table).owner,
    {
        proof {
            Self::lemma_survivors_len(old(table).rows@, oldest_tx);
        }
        let ghost orig = table.rows@;
        let total = table.rows.len();
        let mut i: usize = 0;
        let mut j: usize = 0;
        let mut removed: usize = 0;
        while i < table.rows.len()
            invariant
                j <= orig.len(),
                table.rows@ == survivors(orig.take(j as int), oldest_tx) + orig.skip(j as int),
                i == survivors(orig.take(j as int), oldest_tx).len(),
                removed == j - i,
                survivors(orig.take(j as int), oldest_tx).len() <= j,
                table.name == old(table).name,
                table.columns == old(table).columns,
                table.sequences == old(table).sequences,
                table.owner == old(table).owner,
                orig == old(table).rows@,
                orig.len() == total,
            decreases orig.len() - j,
        {
            assert(table.rows@.len() == i + (orig.len() - j));
            assert(j < orig.len());
            assert(orig.take(j as int + 1).drop_last() =~= orig.take(j as int));
            assert(table.rows@[i as int] == orig[j as int]);
            if table.rows[i].is_dead(oldest_tx) {
                table.rows.remove(i);
                assert(table.rows@ =~= survivors(orig.take(j as int + 1), oldest_tx) + orig.skip(j as int + 1));
                removed = removed + 1;
            } else {
                assert(table.rows@ =~= survivors(orig.take(j as int + 1), oldest_tx) + orig.skip(j as int + 1));
                i = i + 1;
            }
            j = j + 1;
        }
        assert(orig.take(j as int) =~= orig);
        removed
    }

    proof fn lemma_survivors_len(rows: Seq<Row>, oldest: u64)
        ensures
            survivors(rows, oldest).len() <= rows.len(),
        decreases rows.len(),
    {
        if rows.len() > 0 {
            Self::lemma_survivors_len(rows.drop_last(), oldest);
        }
    }
}

/// `after` is `before` with its dead versions removed, nothing else changed.
pub open spec fn vacuumed(before: Table, after: Table, oldest: u64) -> bool {
    &&& after.rows@ == survivors(before.rows@, oldest)
    &&& after.name == before.name
    &&& after.columns == before.columns
    &&& after.sequences == before.sequences
    &&& after.owner == before.owner
}

impl VacuumExecutor {
    /// VACUUM of one table, or of all tables: removes the versions dead at
    /// horizon `oldest_tx`, the oldest transaction still running.
    pub fn vacuum(db: &mut Database, table_name: Option<String>, oldest_tx: u64) -> (r: Result<QueryResult, DatabaseError>)
        requires
            old(db).wf(),
            rows_total(old(db).tables.vals(), old(db).tables.vals().len()) <= usize::MAX,
        ensures
            final(db).wf(),
            final(db).name == old(db).name,
            final(db).enums == old(db).enums,
            final(db).indexes == old(db).indexes,
            final(db).views == old(db).views,
            final(db).table_metadata == old(db).table_metadata,
            match table_name {
                Some(n) => if old(db).tables@.contains_key(n@) {
                    let t = old(db).tables@[n@];
                    &&& final(db).tables@ == old(db).tables@.insert(n@, final(db).tables@[n@])
                    &&& vacuumed(t, final(db).tables@[n@], oldest_tx)
                    &&& r matches Ok(QueryResult::Success(m))
                        && m@ == vacuum_message((t.rows@.len() - survivors(t.rows@, oldest_tx).len()) as nat)
                } else {
                    &&& *final(db) == *old(db)
                    &&& r matches Err(DatabaseError::TableNotFound(x)) && x@ == n@
                },
                None => {
                    let before = old(db).tables.vals();
                    &&& final(db).tables.keys() == old(db).tables.keys()
                    &&& final(db).tables.vals().len() == before.len()
                    &&& forall|i: int| 0 <= i < before.len() ==> vacuumed(before[i], #[trigger] final(db).tables.vals()[i], oldest_tx)
                    &&& r matches Ok(QueryResult::Success(m))
                        && m@ == vacuum_message(dead_total(before, before.len(), oldest_tx))
                },
            },
    {
        let total: usize = match table_name {
            Some(name) => {
                match db.get_table_mut(name.as_str()) {
                    Some(t) => Self::vacuum_table(t, oldest_tx),
                    None => return Err(DatabaseError::TableNotFound(name)),
                }
            },
            None => {
                proof {
                    db.tables.lemma_lengths();
                }
                let ghost before = db.tables.vals();
                let n = db.tables.len();
                let mut total: usize = 0;
                let mut i: usize = 0;
                while i < n
                    invariant
                        db.wf(),
                        db.name == old(db).name,
                        db.enums == old(db).enums,
                        db.indexes == old(db).indexes,
                        db.views == old(db).views,
                        db.table_metadata == old(db).table_metadata,
                        before == old(db).tables.vals(),
                        db.tables.keys() == old(db).tables.keys(),
                        db.tables.vals().len() == before.len(),
                        n == before.len(),
                        i <= n,
                        rows_total(before, n as nat) <= usize::MAX,
                        total == dead_total(before, i as nat, oldest_tx),
                        forall|q: int| 0 <= q < i ==> vacuumed(before[q], #[trigger] db.tables.vals()[q], oldest_tx),
                        forall|q: int| i <= q < n ==> #[trigger] db.tables.vals()[q] == before[q],
                    decreases n - i,
                {
                    proof {
                        db.tables.lemma_lengths();
                        Self::lemma_dead_within(before, i as nat + 1, oldest_tx);
                        Self::lemma_rows_total_grows(before, i as nat + 1, n as nat);
                    }
                    let t = db.tables.value_at_mut(i);
                    let removed = Self::vacuum_table(t, oldest_tx);
                    total = total + removed;
                    i = i + 1;
                }
                total
            },
        };
        let mut out: Vec<char> = Vec::new();
        push_str(&mut out, "VACUUM complete. Removed ");
        let t = fmt_usize(total);
        push_str(&mut out, t.as_str());
        push_str(&mut out, " dead tuples.");
        Ok(QueryResult::Success(string_of(&out)))
    }

    proof fn lemma_dead_within(tables: Seq<Table>, n: nat, oldest: u64)
        requires
            n <= tables.len(),
        ensures
            dead_total(tables, n, oldest) <= rows_total(tables, n),
        decreases n,
    {
        if n > 0 {
            Self::lemma_dead_within(tables, (n - 1) as nat, oldest);
            Self::lemma_survivors_len(tables[n - 1].rows@, oldest);
        }
    }

    proof fn lemma_rows_total_grows(tables: Seq<Table>, k: nat, n: nat)
        requires
            k <= n <= tables.len(),
        ensures
            rows_total(tables, k) <= rows_total(tables, n),
        decreases n - k,
    {
        if k < n {
            Self::lemma_rows_total_grows(tables, k, (n - 1) as nat);
        }
    }
}

/// The versions of `rows` a reader in transaction `tx` sees, in order.
pub open spec fn seen_by(rows: Seq<Row>, tx: u64) -> Seq<Row>
    decreases rows.len(),
{
    if rows.len() == 0 {
        Seq::empty()
    } else {
        seen_by(rows.drop_last(), tx) + if visible_at(rows.last(), tx) { seq![rows.last()] } else { Seq::empty() }
    }
}

/// VACUUM changes nothing a reader can see: after removing the versions dead
/// at horizon `oldest` (what `vacuum_table` leaves), every reader at or after
/// the horizon sees the same versions, in the same order.
pub proof fn law_vacuum_keeps_what_readers_see(rows: Seq<Row>, oldest: u64, reader: u64)
    requires
        oldest <= reader,
    ensures
        seen_by(survivors(rows, oldest), reader) == seen_by(rows, reader),
    decreases rows.len(),
{
    if rows.len() > 0 {
        let p = rows.drop_last();
        let x = rows.last();
        law_vacuum_keeps_what_readers_see(p, oldest, reader);
        if dead_at(x, oldest) {
            assert(survivors(rows, oldest) =~= survivors(p, oldest));
            assert(!visible_at(x, reader));
            assert(seen_by(rows, reader) =~= seen_by(p, reader));
        } else {
            let q = survivors(p, oldest);
            assert(survivors(rows, oldest) =~= q.push(x));
            assert(q.push(x).drop_last() =~= q);
            assert(q.push(x).last() == x);
        }
    }
}

} // verus!
