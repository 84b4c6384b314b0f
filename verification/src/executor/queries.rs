//! SELECT over a table's row versions: projection and CASE expressions,
//! index lookups, ORDER BY, DISTINCT, OFFSET and LIMIT; aggregates.

use vstd::prelude::*;
use crate::catalog::column::{Column, first_column_named, lemma_first_column_named};
use crate::catalog::database::Database;
use crate::catalog::error::DatabaseError;
use crate::catalog::row::{Row, Snapshot, visible_in};
use crate::catalog::table::Table;
use crate::catalog::value::{Value, display_of, identical, real_is_nan, real_less, real_lt, real_rank, value_eq};
use crate::executor::conditions::{
    Condition, ConditionEvaluator, Outcome, eval_cond, eval_leaf, leaf_column, reads_in_row, unknown_column,
    unknown_column_message,
};
use crate::executor::explain::{
    first_where, indexes_have_columns, lemma_first_where_found, lemma_first_where_none, lemma_first_where_prefix,
    lemma_first_where_step,
};
use crate::executor::system_catalogs::{grid, rows_result};
use crate::executor::QueryResult;
use crate::index::Index;
use crate::index::keys::{btree_composite_key_of, btree_key_of, hash_composite_key_of, hash_key_of};
use crate::index::postings::rows_under;
use crate::text::{
    chars_less, lemma_chars_less_asymmetric, lemma_chars_less_irreflexive, lemma_chars_less_total,
    lemma_chars_less_transitive, chars_lt, chars_of, decimal, fmt_i128, fmt_usize, push_str, signed_decimal, str_equal, string_of, string_views,
};

verus! {

/// ORDER BY direction.
#[derive(Clone, Copy, Debug, PartialEq, Eq, Structural)]
pub enum SortOrder {
    Asc,
    Desc,
}

/// What COUNT counts.
#[derive(Debug)]
pub enum CountTarget {
    /// COUNT(*): every row.
    All,
    /// COUNT(column): the rows where the column is not NULL.
    Column(String),
}

/// An aggregate function of a SELECT list.
#[derive(Debug)]
pub enum AggregateFunction {
    Count(CountTarget),
    Sum(String),
    Avg(String),
    Min(String),
    Max(String),
}

/// WHEN condition THEN result.
#[derive(Debug)]
pub struct WhenClause {
    pub condition: Condition,
    pub result: Value,
}

/// CASE WHEN ... THEN ... [ELSE ...] END [AS alias].
#[derive(Debug)]
pub struct CaseExpression {
    pub when_clauses: Vec<WhenClause>,
    pub else_value: Option<Value>,
    pub alias: Option<String>,
}

/// An entry of a SELECT list.
#[derive(Debug)]
pub enum SelectColumn {
    Regular(String),
    Aggregate(AggregateFunction),
    Case(CaseExpression),
}

/// How two values sort against each other.
#[derive(Clone, Copy, Debug, PartialEq, Eq, Structural)]
pub enum ValueOrder {
    Less,
    Equal,
    Greater,
}

/// The order ORDER BY uses: integers, doubles (IEEE), texts (by code point)
/// and booleans among themselves; NULL before everything else; any other
/// pair counts as equal.
pub open spec fn value_order(a: Value, b: Value) -> ValueOrder {
    match (a, b) {
        (Value::Integer(x), Value::Integer(y)) =>
            if x < y { ValueOrder::Less } else if x > y { ValueOrder::Greater } else { ValueOrder::Equal },
        (Value::Real(x), Value::Real(y)) =>
            if real_lt(x.bits, y.bits) {
                ValueOrder::Less
            } else if real_lt(y.bits, x.bits) {
                ValueOrder::Greater
            } else {
                ValueOrder::Equal
            },
        (Value::Text(x), Value::Text(y)) =>
            if chars_less(x@, y@) {
                ValueOrder::Less
            } else if chars_less(y@, x@) {
                ValueOrder::Greater
            } else {
                ValueOrder::Equal
            },
        (Value::Boolean(x), Value::Boolean(y)) =>
            if !x && y { ValueOrder::Less } else if x && !y { ValueOrder::Greater } else { ValueOrder::Equal },
        (Value::Null, Value::Null) => ValueOrder::Equal,
        (Value::Null, _) => ValueOrder::Less,
        (_, Value::Null) => ValueOrder::Greater,
        _ => ValueOrder::Equal,
    }
}

/// Whether, sorting in direction `dir`, a row keyed `a` goes after one keyed `b`.
pub open spec fn goes_after(a: Value, b: Value, dir: SortOrder) -> bool {
    match dir {
        SortOrder::Asc => value_order(a, b) == ValueOrder::Greater,
        SortOrder::Desc => value_order(a, b) == ValueOrder::Less,
    }
}

/// What a CASE expression comes to for a row: the result of the first WHEN
/// whose condition holds, else `otherwise`; a condition that cannot be
/// evaluated stops it.
pub open spec fn case_value(cols: Seq<Column>, vals: Seq<Value>, whens: Seq<WhenClause>, otherwise: Value) -> Result<Value, Outcome>
    decreases whens.len(),
{
    if whens.len() == 0 {
        Ok(otherwise)
    } else {
        match eval_cond(cols, vals, whens[0].condition) {
            Outcome::Holds(true) => Ok(whens[0].result),
            Outcome::Holds(false) => case_value(cols, vals, whens.drop_first(), otherwise),
            o => Err(o),
        }
    }
}

/// The ELSE value of a CASE expression, NULL when it has none.
pub open spec fn else_or_null(e: Option<Value>) -> Value {
    match e {
        Some(v) => v,
        None => Value::Null,
    }
}

/// The error an evaluation failure is reported as.
pub open spec fn failure_reported(e: DatabaseError, o: Outcome) -> bool {
    match o {
        Outcome::UnknownColumn(n) => e matches DatabaseError::ParseError(m) && m@ == unknown_column_message(n),
        Outcome::Mismatch => e == DatabaseError::TypeMismatch,
        Outcome::Holds(_) => false,
    }
}

/// A row wide enough for every column of the table.
pub open spec fn fits(cols: Seq<Column>, vals: Seq<Value>) -> bool {
    vals.len() >= cols.len()
}

/// In a row that has a value for every column, every column a condition
/// reads lies within the row.
pub proof fn lemma_fits_reads(cols: Seq<Column>, vals: Seq<Value>, c: Condition)
    requires
        fits(cols, vals),
    ensures
        reads_in_row(cols, vals, c),
    decreases c,
{
    match c {
        Condition::And(l, r) => {
            lemma_fits_reads(cols, vals, *l);
            lemma_fits_reads(cols, vals, *r);
        },
        Condition::Or(l, r) => {
            lemma_fits_reads(cols, vals, *l);
            lemma_fits_reads(cols, vals, *r);
        },
        _ => {
            lemma_first_column_named(cols, leaf_column(c));
        },
    }
}


/// The column-value pairs compared for equality along a chain of ANDs, left to right.
pub open spec fn equals_pairs(c: Condition) -> Seq<(Seq<char>, Value)>
    decreases c,
{
    match c {
        Condition::Equals(col, v) => seq![(col@, v)],
        Condition::And(l, r) => equals_pairs(*l) + equals_pairs(*r),
        _ => Seq::empty(),
    }
}

/// The pairs of a list of references to names and values.
pub open spec fn pair_views(v: Seq<(&str, &Value)>) -> Seq<(Seq<char>, Value)> {
    v.map_values(|p: (&str, &Value)| (p.0@, *p.1))
}

/// The values behind a list of references.
pub open spec fn deref_values(v: Seq<&Value>) -> Seq<Value> {
    v.map_values(|x: &Value| *x)
}

/// Whether a pair compares column `col`.
pub open spec fn names_col(col: Seq<char>) -> spec_fn((Seq<char>, Value)) -> bool {
    |p: (Seq<char>, Value)| p.0 == col
}

/// The value the first pair on column `col` compares with.
pub open spec fn pair_for(pairs: Seq<(Seq<char>, Value)>, col: Seq<char>) -> Value {
    pairs[first_where(pairs, names_col(col)).unwrap()].1
}

/// A composite index of `table` with as many columns as there are pairs,
/// each of them compared by some pair.
pub open spec fn covers_pairs(ix: Index, table: Seq<char>, pairs: Seq<(Seq<char>, Value)>) -> bool {
    &&& ix.spec_table_name() == table
    &&& ix.spec_columns().len() > 1
    &&& ix.spec_columns().len() == pairs.len()
    &&& forall|k: int| 0 <= k < ix.spec_columns().len() ==> (first_where(pairs, names_col(#[trigger] ix.spec_columns()[k]@)) is Some)
}

/// The indexes that cover a chain of equalities.
pub open spec fn pairs_covered(table: Seq<char>, pairs: Seq<(Seq<char>, Value)>) -> spec_fn(Index) -> bool {
    |ix: Index| covers_pairs(ix, table, pairs)
}

/// The values to look up in a composite index, in its column order.
pub open spec fn lookup_values(ix: Index, pairs: Seq<(Seq<char>, Value)>) -> Seq<Value> {
    ix.spec_columns().map_values(|n: String| pair_for(pairs, n@))
}

/// The column and value of a condition a single-column index may serve: `=`, `>` or `<`.
pub open spec fn single_target(c: Condition) -> Option<(Seq<char>, Value)> {
    match c {
        Condition::Equals(col, v) => Some((col@, v)),
        Condition::GreaterThan(col, v) => Some((col@, v)),
        Condition::LessThan(col, v) => Some((col@, v)),
        _ => None,
    }
}

/// The single-column indexes of `table` on `col`.
pub open spec fn column_served(table: Seq<char>, col: Seq<char>) -> spec_fn(Index) -> bool {
    |ix: Index| ix.spec_table_name() == table && ix.spec_columns().len() <= 1 && ix.spec_columns()[0]@ == col
}

/// The index a SELECT on `table` reads through, by position among the
/// database's indexes, with the values to look up: for a chain of two or more
/// equalities the first composite index covering them, else for `=`, `>` or
/// `<` the first single-column index on the compared column.
pub open spec fn usable_index(db: Database, table: Seq<char>, filter: Option<Condition>) -> Option<(int, Seq<Value>)> {
    match filter {
        None => None,
        Some(c) => {
            let pairs = equals_pairs(c);
            let ixs = db.indexes.vals();
            let comp = if pairs.len() >= 2 { first_where(ixs, pairs_covered(table, pairs)) } else { None };
            match comp {
                Some(k) => Some((k, lookup_values(ixs[k], pairs))),
                None => match single_target(c) {
                    None => None,
                    Some((col, v)) => match first_where(ixs, column_served(table, col)) {
                        Some(k) => Some((k, seq![v])),
                        None => None,
                    },
                },
            }
        },
    }
}

/// Every index of the database is well formed.
pub open spec fn indexes_wf(db: Database) -> bool {
    forall|i: int| 0 <= i < db.indexes.vals().len() ==> (#[trigger] db.indexes.vals()[i]).wf()
}

/// The rows at positions `pos` of `rows`, in that order, skipping positions past the end.
pub open spec fn rows_at(rows: Seq<Row>, pos: Seq<usize>) -> Seq<Row>
    decreases pos.len(),
{
    if pos.len() == 0 {
        Seq::empty()
    } else {
        rows_at(rows, pos.drop_last()) + if (pos.last() as int) < rows.len() { seq![rows[pos.last() as int]] } else { Seq::empty() }
    }
}

/// The row positions a lookup of `vals` through index `ix` gives.
pub open spec fn lookup_positions(ix: Index, vals: Seq<Value>) -> Seq<usize> {
    if ix.spec_columns().len() > 1 && vals.len() > 1 {
        if vals.len() == ix.spec_columns().len() {
            rows_under(ix.postings(), ix.composite_key_of(vals))
        } else {
            Seq::empty()
        }
    } else {
        rows_under(ix.postings(), ix.key_of(vals[0]))
    }
}

/// The row versions a SELECT on `table` examines, in order: those an index
/// lookup gives, else all of them.
pub open spec fn candidates(db: Database, table: Seq<char>, filter: Option<Condition>) -> Seq<Row> {
    let rows = db.tables@[table].rows@;
    match usable_index(db, table, filter) {
        None => rows,
        Some((k, vals)) => rows_at(rows, lookup_positions(db.indexes.vals()[k], vals)),
    }
}

/// The rendered values at positions `proj` of a row.
pub open spec fn row_cells(vals: Seq<Value>, proj: Seq<usize>) -> Seq<Seq<char>> {
    proj.map_values(|i: usize| display_of(vals[i as int]))
}

/// The rendered results of the CASE expressions for a row, or the first failure.
pub open spec fn case_cells(cols: Seq<Column>, vals: Seq<Value>, cases: Seq<CaseExpression>) -> Result<Seq<Seq<char>>, Outcome>
    decreases cases.len(),
{
    if cases.len() == 0 {
        Ok(Seq::empty())
    } else {
        match case_cells(cols, vals, cases.drop_last()) {
            Err(o) => Err(o),
            Ok(cells) => match case_value(cols, vals, cases.last().when_clauses@, else_or_null(cases.last().else_value)) {
                Ok(v) => Ok(cells.push(display_of(v))),
                Err(o) => Err(o),
            },
        }
    }
}

/// What a filter comes to for a row: no filter selects it.
pub open spec fn filter_outcome(cols: Seq<Column>, vals: Seq<Value>, filter: Option<Condition>) -> Outcome {
    match filter {
        None => Outcome::Holds(true),
        Some(c) => eval_cond(cols, vals, c),
    }
}

/// What a scan comes to: the rows kept with their rendered cells, or the first failure.
pub ghost enum Scanned {
    Rows(Seq<Row>, Seq<Seq<Seq<char>>>),
    Failed(Outcome),
}

/// Scanning `cands` in order: the versions visible in the snapshot that the
/// filter selects are kept, rendered at `proj` and followed by the CASE
/// results; the first evaluation failure stops the scan.
pub open spec fn scan(cols: Seq<Column>, cands: Seq<Row>, snap: Snapshot, filter: Option<Condition>, proj: Seq<usize>,
    cases: Seq<CaseExpression>) -> Scanned
    decreases cands.len(),
{
    if cands.len() == 0 {
        Scanned::Rows(Seq::empty(), Seq::empty())
    } else {
        match scan(cols, cands.drop_last(), snap, filter, proj, cases) {
            Scanned::Failed(o) => Scanned::Failed(o),
            Scanned::Rows(kept, out) => {
                let r = cands.last();
                if !visible_in(r, snap) {
                    Scanned::Rows(kept, out)
                } else {
                    match filter_outcome(cols, r.values@, filter) {
                        Outcome::Holds(true) => match case_cells(cols, r.values@, cases) {
                            Ok(cells) => Scanned::Rows(kept.push(r), out.push(row_cells(r.values@, proj) + cells)),
                            Err(o) => Scanned::Failed(o),
                        },
                        Outcome::Holds(false) => Scanned::Rows(kept, out),
                        o => Scanned::Failed(o),
                    }
                }
            },
        }
    }
}

/// Inserting position `x` into the ordered positions `s`: it goes after every
/// position whose key `x`'s key does not go after, so equal keys keep their order.
pub open spec fn insert_stable<K>(s: Seq<usize>, x: usize, keys: Seq<K>, after: spec_fn(K, K) -> bool) -> Seq<usize>
    decreases s.len(),
{
    if s.len() == 0 {
        seq![x]
    } else if after(keys[s.last() as int], keys[x as int]) {
        insert_stable(s.drop_last(), x, keys, after).push(s.last())
    } else {
        s.push(x)
    }
}

/// The positions `0..n` in the stable order of their keys.
pub open spec fn sorted_order<K>(keys: Seq<K>, after: spec_fn(K, K) -> bool, n: nat) -> Seq<usize>
    decreases n,
{
    if n == 0 {
        Seq::empty()
    } else {
        insert_stable(sorted_order(keys, after, (n - 1) as nat), (n - 1) as usize, keys, after)
    }
}

/// ORDER BY's "goes after" on values, in direction `dir`.
pub open spec fn value_after(dir: SortOrder) -> spec_fn(Value, Value) -> bool {
    |a: Value, b: Value| goes_after(a, b, dir)
}

/// The elements of `s` that do not occur earlier in it, in order.
pub open spec fn first_occurrences<T>(s: Seq<T>) -> Seq<T>
    decreases s.len(),
{
    if s.len() == 0 {
        Seq::empty()
    } else if s.drop_last().contains(s.last()) {
        first_occurrences(s.drop_last())
    } else {
        first_occurrences(s.drop_last()).push(s.last())
    }
}

/// The elements left after skipping `offset` and keeping at most `limit`.
pub open spec fn windowed<T>(s: Seq<T>, offset: Option<usize>, limit: Option<usize>) -> Seq<T> {
    let a = match offset {
        Some(o) => if (o as int) < s.len() { s.skip(o as int) } else { Seq::empty() },
        None => s,
    };
    match limit {
        Some(l) => if (l as int) < a.len() { a.take(l as int) } else { a },
        None => a,
    }
}

/// The rows behind a list of references.
pub open spec fn deref_rows(v: Seq<&Row>) -> Seq<Row> {
    v.map_values(|r: &Row| *r)
}

/// The CASE expressions behind a list of references.
pub open spec fn deref_cases(v: Seq<&CaseExpression>) -> Seq<CaseExpression> {
    v.map_values(|c: &CaseExpression| *c)
}

/// Values that are the same value render alike and file under the same keys.
pub proof fn lemma_identical_renders(a: Value, b: Value)
    requires
        identical(a, b),
    ensures
        display_of(a) == display_of(b),
        btree_key_of(a) == btree_key_of(b),
        hash_key_of(a) == hash_key_of(b),
{
}

/// Lists of pairwise identical values file under the same composite keys.
pub proof fn lemma_identical_keys(a: Seq<Value>, b: Seq<Value>)
    requires
        a.len() == b.len(),
        forall|i: int| 0 <= i < a.len() ==> identical(#[trigger] a[i], b[i]),
    ensures
        btree_composite_key_of(a) == btree_composite_key_of(b),
        hash_composite_key_of(a) == hash_composite_key_of(b),
{
    assert forall|i: int| 0 <= i < a.len() implies #[trigger] btree_key_of(a[i]) == btree_key_of(b[i])
        && hash_key_of(a[i]) == hash_key_of(b[i]) by {
        lemma_identical_renders(a[i], b[i]);
    }
    assert(a.map_values(|v: Value| btree_key_of(v)) =~= b.map_values(|v: Value| btree_key_of(v)));
    assert(a.map_values(|v: Value| hash_key_of(v)) =~= b.map_values(|v: Value| hash_key_of(v)));
}

/// Where the inner loop of insertion stops, inserting there is `insert_stable`.
pub proof fn lemma_insert_stable_at<K>(s: Seq<usize>, x: usize, keys: Seq<K>, after: spec_fn(K, K) -> bool, j: int)
    requires
        0 <= j <= s.len(),
        forall|m: int| j <= m < s.len() ==> after(keys[#[trigger] s[m] as int], keys[x as int]),
        j == 0 || !after(keys[s[j - 1] as int], keys[x as int]),
    ensures
        insert_stable(s, x, keys, after) == s.insert(j, x),
    decreases s.len(),
{
    if s.len() == j {
        assert(s.insert(j, x) =~= s.push(x));
    } else {
        assert(after(keys[s[s.len() - 1] as int], keys[x as int]));
        lemma_insert_stable_at(s.drop_last(), x, keys, after, j);
        assert(s.insert(j, x) =~= s.drop_last().insert(j, x).push(s.last()));
    }
}

/// An element occurs among the first occurrences exactly when it occurs.
pub proof fn lemma_first_occurrences_contains<T>(s: Seq<T>, x: T)
    ensures
        first_occurrences(s).contains(x) == s.contains(x),
    decreases s.len(),
{
    if s.len() > 0 {
        let p = s.drop_last();
        let f = first_occurrences(p);
        lemma_first_occurrences_contains(p, x);
        if s.contains(x) {
            let i = choose|i: int| 0 <= i < s.len() && s[i] == x;
            if i < s.len() - 1 {
                assert(p[i] == x);
            }
        }
        if p.contains(x) {
            let i = choose|i: int| 0 <= i < p.len() && p[i] == x;
            assert(s[i] == x);
        }
        if x == s.last() {
            assert(s[s.len() - 1] == x);
        }
        if !p.contains(s.last()) {
            let g = f.push(s.last());
            if g.contains(x) {
                let k = choose|k: int| 0 <= k < g.len() && g[k] == x;
                if k < f.len() {
                    assert(f[k] == x);
                }
            }
            if f.contains(x) {
                let k = choose|k: int| 0 <= k < f.len() && f[k] == x;
                assert(g[k] == x);
            }
            if x == s.last() {
                assert(g[f.len() as int] == x);
            }
        }
    }
}

/// A failure among the first CASE expressions is the failure of all of them.
pub proof fn lemma_case_cells_prefix(cols: Seq<Column>, vals: Seq<Value>, cs: Seq<CaseExpression>, k: int, m: int)
    requires
        0 <= k <= m <= cs.len(),
        case_cells(cols, vals, cs.take(k)) is Err,
    ensures
        case_cells(cols, vals, cs.take(m)) == case_cells(cols, vals, cs.take(k)),
    decreases m - k,
{
    if m > k {
        lemma_case_cells_prefix(cols, vals, cs, k, m - 1);
        assert(cs.take(m).drop_last() =~= cs.take(m - 1));
    }
}

/// A failure scanning the first candidates is the failure of the whole scan.
pub proof fn lemma_scan_prefix(cols: Seq<Column>, cands: Seq<Row>, snap: Snapshot, filter: Option<Condition>,
    proj: Seq<usize>, cases: Seq<CaseExpression>, k: int, m: int)
    requires
        0 <= k <= m <= cands.len(),
        scan(cols, cands.take(k), snap, filter, proj, cases) is Failed,
    ensures
        scan(cols, cands.take(m), snap, filter, proj, cases) == scan(cols, cands.take(k), snap, filter, proj, cases),
    decreases m - k,
{
    if m > k {
        lemma_scan_prefix(cols, cands, snap, filter, proj, cases, k, m - 1);
        assert(cands.take(m).drop_last() =~= cands.take(m - 1));
    }
}

/// The names of the plain columns of a SELECT list, in order.
pub open spec fn regular_names(sel: Seq<SelectColumn>) -> Seq<Seq<char>>
    decreases sel.len(),
{
    if sel.len() == 0 {
        Seq::empty()
    } else {
        regular_names(sel.drop_last()) + match sel.last() {
            SelectColumn::Regular(n) => seq![n@],
            _ => Seq::empty(),
        }
    }
}

/// The CASE expressions of a SELECT list, in order.
pub open spec fn case_list(sel: Seq<SelectColumn>) -> Seq<CaseExpression>
    decreases sel.len(),
{
    if sel.len() == 0 {
        Seq::empty()
    } else {
        case_list(sel.drop_last()) + match sel.last() {
            SelectColumn::Case(c) => seq![c],
            _ => Seq::empty(),
        }
    }
}

/// The positions of the columns named, or the first name no column bears.
pub open spec fn positions_of(cols: Seq<Column>, names: Seq<Seq<char>>) -> Result<Seq<usize>, Seq<char>>
    decreases names.len(),
{
    if names.len() == 0 {
        Ok(Seq::empty())
    } else {
        match positions_of(cols, names.drop_last()) {
            Err(n) => Err(n),
            Ok(p) => match first_column_named(cols, names.last()) {
                Some(i) => Ok(p.push(i as usize)),
                None => Err(names.last()),
            },
        }
    }
}

/// The column positions a SELECT list shows: every column for `*` alone,
/// else those of the plain columns named (the first unknown name is an error).
pub open spec fn projection(cols: Seq<Column>, sel: Seq<SelectColumn>) -> Result<Seq<usize>, Seq<char>> {
    let names = regular_names(sel);
    if names.len() == 1 && names[0] == "*"@ && case_list(sel).len() == 0 {
        Ok(Seq::new(cols.len(), |i: int| i as usize))
    } else {
        positions_of(cols, names)
    }
}

/// The heading of a CASE column: its alias, else "case".
pub open spec fn alias_name(c: CaseExpression) -> Seq<char> {
    match c.alias {
        Some(a) => a@,
        None => "case"@,
    }
}

/// The headings of a result: the columns shown, then the CASE columns.
pub open spec fn result_names(cols: Seq<Column>, proj: Seq<usize>, cases: Seq<CaseExpression>) -> Seq<Seq<char>> {
    proj.map_values(|i: usize| cols[i as int].name@) + cases.map_values(|c: CaseExpression| alias_name(c))
}

/// The rendered rows in the stable order of the kept rows' values in column `idx`.
pub open spec fn ordered(kept: Seq<Row>, cells: Seq<Seq<Seq<char>>>, idx: int, dir: SortOrder) -> Seq<Seq<Seq<char>>> {
    let keys = kept.map_values(|r: Row| r.values@[idx]);
    sorted_order(keys, value_after(dir), keys.len()).map_values(|p: usize| cells[p as int])
}

/// What a SELECT without aggregates, grouping or joins answers: the table
/// must exist and the columns named too; the candidate versions are scanned
/// (see `scan`), then sorted by the ORDER BY column (which must exist),
/// deduplicated for DISTINCT, and cut by OFFSET and LIMIT.
pub open spec fn regular_select(db: Database, distinct: bool, sel: Seq<SelectColumn>, from: Seq<char>,
    filter: Option<Condition>, order_by: Option<(String, SortOrder)>, limit: Option<usize>, offset: Option<usize>,
    snap: Snapshot, r: Result<QueryResult, DatabaseError>) -> bool {
    if !db.tables@.contains_key(from) {
        r matches Err(DatabaseError::TableNotFound(n)) && n@ == from
    } else {
        let t = db.tables@[from];
        match projection(t.columns@, sel) {
            Err(n) => r matches Err(DatabaseError::ParseError(m)) && m@ == unknown_column_message(n),
            Ok(proj) => match scan(t.columns@, candidates(db, from, filter), snap, filter, proj, case_list(sel)) {
                Scanned::Failed(o) => r matches Err(e) && failure_reported(e, o),
                Scanned::Rows(kept, cells) => {
                    let sorted = match order_by {
                        None => Some(cells),
                        Some(ob) => match first_column_named(t.columns@, ob.0@) {
                            None => None,
                            Some(idx) => Some(ordered(kept, cells, idx, ob.1)),
                        },
                    };
                    match sorted {
                        None => r matches Err(DatabaseError::ParseError(m)) && m@ == unknown_column_message(order_by.unwrap().0@),
                        Some(rows) => rows_result(
                            r,
                            windowed(if distinct { first_occurrences(rows) } else { rows }, offset, limit),
                            result_names(t.columns@, proj, case_list(sel)),
                        ),
                    }
                },
            },
        }
    }
}

/// Every row version of the table has a value for each column.
pub open spec fn rows_fit(t: Table) -> bool {
    forall|i: int| 0 <= i < t.rows@.len() ==> fits(t.columns@, (#[trigger] t.rows@[i]).values@)
}

/// The index `usable_index` picks lies among the database's indexes, and a
/// lookup through it has a value for each of its columns, at least one.
pub proof fn lemma_usable_index_in_range(db: Database, table: Seq<char>, filter: Option<Condition>)
    requires
        indexes_have_columns(db, table),
    ensures
        usable_index(db, table, filter) matches Some((k, vals)) ==> 0 <= k < db.indexes.vals().len()
            && vals.len() >= 1
            && (vals.len() > 1 ==> vals.len() == db.indexes.vals()[k].spec_columns().len()),
{
    match filter {
        None => {},
        Some(c) => {
            let pairs = equals_pairs(c);
            let ixs = db.indexes.vals();
            if pairs.len() >= 2 {
                lemma_first_where_found(ixs, pairs_covered(table, pairs));
            }
            match single_target(c) {
                None => {},
                Some((col, v)) => {
                    lemma_first_where_found(ixs, column_served(table, col));
                },
            }
        },
    }
}

/// A failure among the first names is the failure of all of them.
pub proof fn lemma_positions_prefix(cols: Seq<Column>, names: Seq<Seq<char>>, k: int, m: int)
    requires
        0 <= k <= m <= names.len(),
        positions_of(cols, names.take(k)) is Err,
    ensures
        positions_of(cols, names.take(m)) == positions_of(cols, names.take(k)),
    decreases m - k,
{
    if m > k {
        lemma_positions_prefix(cols, names, k, m - 1);
        assert(names.take(m).drop_last() =~= names.take(m - 1));
    }
}

/// The positions found for names lie among the columns.
pub proof fn lemma_positions_of_in_range(cols: Seq<Column>, names: Seq<Seq<char>>)
    ensures
        positions_of(cols, names) matches Ok(p) ==> forall|q: int| 0 <= q < p.len() ==> (#[trigger] p[q]) < cols.len(),
    decreases names.len(),
{
    if names.len() > 0 {
        lemma_positions_of_in_range(cols, names.drop_last());
        lemma_first_column_named(cols, names.last());
    }
}

/// The positions a SELECT list shows lie among the columns.
pub proof fn lemma_positions_in_range(cols: Seq<Column>, sel: Seq<SelectColumn>)
    ensures
        projection(cols, sel) matches Ok(p) ==> forall|q: int| 0 <= q < p.len() ==> (#[trigger] p[q]) < cols.len(),
{
    lemma_positions_of_in_range(cols, regular_names(sel));
}

/// The positions `insert_stable` gives are those of `s` and `x`.
pub proof fn lemma_insert_stable_elements<K>(s: Seq<usize>, x: usize, keys: Seq<K>, after: spec_fn(K, K) -> bool)
    ensures
        insert_stable(s, x, keys, after).len() == s.len() + 1,
        forall|m: int| 0 <= m < insert_stable(s, x, keys, after).len() ==>
            (#[trigger] insert_stable(s, x, keys, after)[m] == x || s.contains(insert_stable(s, x, keys, after)[m])),
    decreases s.len(),
{
    if s.len() > 0 && after(keys[s.last() as int], keys[x as int]) {
        let p = s.drop_last();
        lemma_insert_stable_elements(p, x, keys, after);
        let t = insert_stable(s, x, keys, after);
        assert forall|m: int| 0 <= m < t.len() implies (#[trigger] t[m] == x || s.contains(t[m])) by {
            if m < t.len() - 1 {
                let e = insert_stable(p, x, keys, after)[m];
                if e != x {
                    let w = choose|w: int| 0 <= w < p.len() && p[w] == e;
                    assert(s[w] == e);
                }
            } else {
                assert(s[s.len() - 1] == t[m]);
            }
        }
    } else if s.len() > 0 {
        let t = s.push(x);
        assert forall|m: int| 0 <= m < t.len() implies (#[trigger] t[m] == x || s.contains(t[m])) by {
            if m < s.len() {
                assert(s[m] == t[m]);
            }
        }
    }
}

/// The stable order of `0..n` holds `n` positions, each below `n`.
pub proof fn lemma_sorted_order_in_range<K>(keys: Seq<K>, after: spec_fn(K, K) -> bool, n: nat)
    ensures
        sorted_order(keys, after, n).len() == n,
        forall|m: int| 0 <= m < sorted_order(keys, after, n).len() ==> (#[trigger] sorted_order(keys, after, n)[m]) < n,
    decreases n,
{
    if n > 0 {
        let p = sorted_order(keys, after, (n - 1) as nat);
        lemma_sorted_order_in_range(keys, after, (n - 1) as nat);
        lemma_insert_stable_elements(p, (n - 1) as usize, keys, after);
        let t = sorted_order(keys, after, n);
        assert forall|m: int| 0 <= m < t.len() implies (#[trigger] t[m]) < n by {
            if t[m] != (n - 1) as usize {
                let w = choose|w: int| 0 <= w < p.len() && p[w] == t[m];
            }
        }
    }
}

/// An aggregate's result as computed here: rendered text, or the numbers whose
/// floating-point sum or mean is still to be taken and rendered.
#[derive(Debug)]
pub enum AggregateValue {
    Text(String),
    /// SUM over a column holding doubles: those doubles, in row order (the
    /// column's integers do not enter such a sum).
    RealSum(Vec<Value>),
    /// AVG over at least one number: the numbers, in row order.
    Mean(Vec<Value>),
}

/// The mathematical view of an aggregate's result.
pub ghost enum AggregateView {
    Text(Seq<char>),
    RealSum(Seq<Value>),
    Mean(Seq<Value>),
}

/// Two lists of the same values.
pub open spec fn same_values(a: Seq<Value>, b: Seq<Value>) -> bool {
    a.len() == b.len() && forall|i: int| 0 <= i < a.len() ==> identical(#[trigger] a[i], b[i])
}

/// Whether a computed aggregate is the one viewed.
pub open spec fn shows(a: AggregateValue, v: AggregateView) -> bool {
    match (a, v) {
        (AggregateValue::Text(s), AggregateView::Text(t)) => s@ == t,
        (AggregateValue::RealSum(x), AggregateView::RealSum(y)) => same_values(x@, y),
        (AggregateValue::Mean(x), AggregateView::Mean(y)) => same_values(x@, y),
        _ => false,
    }
}

/// The values of column `idx` of the rows, in order.
pub open spec fn column_values(rows: Seq<Row>, idx: int) -> Seq<Value> {
    rows.map_values(|r: Row| r.values@[idx])
}

/// Values SUM and AVG accept: integers, doubles and NULL.
pub open spec fn is_number(v: Value) -> bool {
    v is Integer || v is Real || v is Null
}

/// Every value is accepted by SUM and AVG.
pub open spec fn all_numbers(vals: Seq<Value>) -> bool {
    forall|i: int| 0 <= i < vals.len() ==> is_number(#[trigger] vals[i])
}

/// The sum of the integers among the values.
pub open spec fn int_sum(vals: Seq<Value>) -> int
    decreases vals.len(),
{
    if vals.len() == 0 {
        0
    } else {
        int_sum(vals.drop_last()) + match vals.last() {
            Value::Integer(i) => i as int,
            _ => 0,
        }
    }
}

/// Whether an integer occurs among the values.
pub open spec fn has_integer(vals: Seq<Value>) -> bool {
    exists|i: int| 0 <= i < vals.len() && (#[trigger] vals[i]) is Integer
}

/// The doubles among the values, in order.
pub open spec fn reals_of(vals: Seq<Value>) -> Seq<Value>
    decreases vals.len(),
{
    if vals.len() == 0 {
        Seq::empty()
    } else {
        reals_of(vals.drop_last()) + if vals.last() is Real { seq![vals.last()] } else { Seq::empty() }
    }
}

/// The integers and doubles among the values, in order.
pub open spec fn numbers_of(vals: Seq<Value>) -> Seq<Value>
    decreases vals.len(),
{
    if vals.len() == 0 {
        Seq::empty()
    } else {
        numbers_of(vals.drop_last()) + if vals.last() is Integer || vals.last() is Real { seq![vals.last()] } else { Seq::empty() }
    }
}

/// How many of the values are not NULL.
pub open spec fn non_null_count(vals: Seq<Value>) -> nat
    decreases vals.len(),
{
    if vals.len() == 0 {
        0
    } else {
        non_null_count(vals.drop_last()) + if vals.last() is Null { 0nat } else { 1nat }
    }
}

/// The running integer sum of SUM stays within 64 bits up to the first value
/// SUM refuses.
pub open spec fn sum_fits(vals: Seq<Value>) -> bool
    decreases vals.len(),
{
    if vals.len() == 0 {
        true
    } else {
        sum_fits(vals.drop_last())
            && (all_numbers(vals.drop_last()) && vals.last() is Integer ==> i64::MIN <= int_sum(vals) <= i64::MAX)
    }
}

/// `a` strictly before `b` for MIN and MAX: integers, doubles (IEEE) and
/// texts (by code point) among themselves; no other pair.
pub open spec fn strictly_less(a: Value, b: Value) -> bool {
    match (a, b) {
        (Value::Integer(x), Value::Integer(y)) => x < y,
        (Value::Real(x), Value::Real(y)) => real_lt(x.bits, y.bits),
        (Value::Text(x), Value::Text(y)) => chars_less(x@, y@),
        _ => false,
    }
}

/// The value MIN (or, with `max`, MAX) keeps scanning the values in order:
/// the first non-NULL one, replaced by each later value strictly beyond it.
pub open spec fn extreme(vals: Seq<Value>, max: bool) -> Option<Value>
    decreases vals.len(),
{
    if vals.len() == 0 {
        None
    } else {
        let v = vals.last();
        match extreme(vals.drop_last(), max) {
            None => if v is Null { None } else { Some(v) },
            Some(cur) => if !(v is Null) && (if max { strictly_less(cur, v) } else { strictly_less(v, cur) }) {
                Some(v)
            } else {
                Some(cur)
            },
        }
    }
}

/// `strictly_less` is a strict order: irreflexive and transitive.
proof fn lemma_strictly_less_order(a: Value, b: Value, c: Value)
    ensures
        !strictly_less(a, a),
        strictly_less(a, b) && strictly_less(b, c) ==> strictly_less(a, c),
{
    if let Value::Text(x) = a {
        lemma_chars_less_irreflexive(x@);
    }
    if strictly_less(a, b) && strictly_less(b, c) {
        if let (Value::Text(x), Value::Text(y), Value::Text(z)) = (a, b, c) {
            lemma_chars_less_transitive(x@, y@, z@);
        }
    }
}

/// MIN and MAX pick an extreme value: the value MAX (with `max`; MIN without)
/// returns is one of the non-NULL values of the column, and no value of the
/// column lies strictly beyond it (above it for MAX, below it for MIN); it is
/// absent exactly when every value is NULL.
pub proof fn law_extreme_is_extreme(vals: Seq<Value>, max: bool)
    ensures
        extreme(vals, max) is None <==> forall|i: int| 0 <= i < vals.len() ==> (#[trigger] vals[i]) is Null,
        extreme(vals, max) matches Some(m) ==> {
            &&& vals.contains(m)
            &&& !(m is Null)
            &&& forall|i: int| 0 <= i < vals.len() ==> if max { !strictly_less(m, #[trigger] vals[i]) } else { !strictly_less(vals[i], m) }
        },
    decreases vals.len(),
{
    if vals.len() > 0 {
        let p = vals.drop_last();
        let v = vals.last();
        law_extreme_is_extreme(p, max);
        assert forall|i: int| 0 <= i < p.len() implies p[i] == vals[i] by {}
        assert(vals[vals.len() - 1] == v);
        match extreme(p, max) {
            None => {
                lemma_strictly_less_order(v, v, v);
            },
            Some(cur) => {
                let j = choose|j: int| 0 <= j < p.len() && p[j] == cur;
                assert(vals[j] == cur);
                if extreme(vals, max) == Some(v) && v != cur {
                    assert forall|i: int| 0 <= i < vals.len() implies if max { !strictly_less(v, #[trigger] vals[i]) } else { !strictly_less(vals[i], v) } by {
                        lemma_strictly_less_order(v, v, v);
                        if i < p.len() {
                            if max {
                                lemma_strictly_less_order(cur, v, vals[i]);
                            } else {
                                lemma_strictly_less_order(vals[i], v, cur);
                            }
                        }
                    }
                } else {
                    assert forall|i: int| 0 <= i < vals.len() implies if max { !strictly_less(cur, #[trigger] vals[i]) } else { !strictly_less(vals[i], cur) } by {
                        lemma_strictly_less_order(cur, cur, cur);
                    }
                }
            },
        }
    }
}

/// The rendering of MIN or MAX: the value kept, else NULL.
pub open spec fn extreme_text(e: Option<Value>) -> Seq<char> {
    match e {
        Some(v) => display_of(v),
        None => "NULL"@,
    }
}

/// What an aggregate comes to over the rows, with its heading; an unknown
/// column, or a value SUM or AVG refuses, is a failure.
pub open spec fn aggregate_of(cols: Seq<Column>, rows: Seq<Row>, f: AggregateFunction) -> Result<(AggregateView, Seq<char>), Outcome> {
    match f {
        AggregateFunction::Count(CountTarget::All) => Ok((AggregateView::Text(decimal(rows.len())), "count"@)),
        AggregateFunction::Count(CountTarget::Column(c)) => match first_column_named(cols, c@) {
            None => Err(Outcome::UnknownColumn(c@)),
            Some(i) => Ok((AggregateView::Text(decimal(non_null_count(column_values(rows, i)))), "count"@)),
        },
        AggregateFunction::Sum(c) => match first_column_named(cols, c@) {
            None => Err(Outcome::UnknownColumn(c@)),
            Some(i) => {
                let vs = column_values(rows, i);
                if !all_numbers(vs) {
                    Err(Outcome::Mismatch)
                } else if reals_of(vs).len() > 0 {
                    Ok((AggregateView::RealSum(reals_of(vs)), "sum("@ + c@ + ")"@))
                } else if has_integer(vs) {
                    Ok((AggregateView::Text(signed_decimal(int_sum(vs))), "sum("@ + c@ + ")"@))
                } else {
                    Ok((AggregateView::Text("0"@), "sum("@ + c@ + ")"@))
                }
            },
        },
        AggregateFunction::Avg(c) => match first_column_named(cols, c@) {
            None => Err(Outcome::UnknownColumn(c@)),
            Some(i) => {
                let vs = column_values(rows, i);
                if !all_numbers(vs) {
                    Err(Outcome::Mismatch)
                } else if numbers_of(vs).len() == 0 {
                    Ok((AggregateView::Text("0"@), "avg("@ + c@ + ")"@))
                } else {
                    Ok((AggregateView::Mean(numbers_of(vs)), "avg("@ + c@ + ")"@))
                }
            },
        },
        AggregateFunction::Min(c) => match first_column_named(cols, c@) {
            None => Err(Outcome::UnknownColumn(c@)),
            Some(i) => Ok((AggregateView::Text(extreme_text(extreme(column_values(rows, i), false))), "min("@ + c@ + ")"@)),
        },
        AggregateFunction::Max(c) => match first_column_named(cols, c@) {
            None => Err(Outcome::UnknownColumn(c@)),
            Some(i) => Ok((AggregateView::Text(extreme_text(extreme(column_values(rows, i), true))), "max("@ + c@ + ")"@)),
        },
    }
}

/// What computing an aggregate over the rows needs: a running integer sum
/// that fits, and for AVG a count of numbers that fits in 32 bits.
pub open spec fn aggregate_fits(cols: Seq<Column>, rows: Seq<Row>, f: AggregateFunction) -> bool {
    match f {
        AggregateFunction::Sum(c) => match first_column_named(cols, c@) {
            Some(i) => sum_fits(column_values(rows, i)),
            None => true,
        },
        AggregateFunction::Avg(c) => match first_column_named(cols, c@) {
            Some(i) => numbers_of(column_values(rows, i)).len() <= i32::MAX,
            None => true,
        },
        _ => true,
    }
}

/// A running sum that fits over all the values fits over any prefix.
pub proof fn lemma_sum_fits_prefix(vals: Seq<Value>, k: int)
    requires
        0 <= k <= vals.len(),
        sum_fits(vals),
    ensures
        sum_fits(vals.take(k)),
    decreases vals.len() - k,
{
    if k < vals.len() {
        assert(vals.drop_last().take(k) =~= vals.take(k));
        lemma_sum_fits_prefix(vals.drop_last(), k);
    } else {
        assert(vals.take(k) =~= vals);
    }
}

/// One value more: the facts about a prefix extend.
pub proof fn lemma_values_step(vals: Seq<Value>, i: int)
    requires
        0 <= i < vals.len(),
    ensures
        vals.take(i + 1).drop_last() == vals.take(i),
        vals.take(i + 1).last() == vals[i],
        has_integer(vals.take(i + 1)) == (has_integer(vals.take(i)) || vals[i] is Integer),
        all_numbers(vals.take(i + 1)) == (all_numbers(vals.take(i)) && is_number(vals[i])),
{
    assert(vals.take(i + 1).drop_last() =~= vals.take(i));
    let t = vals.take(i + 1);
    if has_integer(t) {
        let j = choose|j: int| 0 <= j < t.len() && (#[trigger] t[j]) is Integer;
        if j < i {
            assert(vals.take(i)[j] == t[j]);
        }
    }
    if has_integer(vals.take(i)) {
        let j = choose|j: int| 0 <= j < vals.take(i).len() && (#[trigger] vals.take(i)[j]) is Integer;
        assert(t[j] == vals.take(i)[j]);
    }
    if vals[i] is Integer {
        assert(t[i] == vals[i]);
    }
    if all_numbers(t) {
        assert forall|j: int| 0 <= j < vals.take(i).len() implies is_number(#[trigger] vals.take(i)[j]) by {
            assert(t[j] == vals.take(i)[j]);
        }
        assert(is_number(t[i]));
    }
    if all_numbers(vals.take(i)) && is_number(vals[i]) {
        assert forall|j: int| 0 <= j < t.len() implies is_number(#[trigger] t[j]) by {
            if j < i {
                assert(t[j] == vals.take(i)[j]);
            }
        }
    }
}

/// Why a SELECT fails: an evaluation failure, or a refusal with a message.
pub ghost enum SelectFailure {
    Eval(Outcome),
    Message(Seq<char>),
}

/// The error a SELECT failure is reported as.
pub open spec fn failure_is(e: DatabaseError, f: SelectFailure) -> bool {
    match f {
        SelectFailure::Eval(o) => failure_reported(e, o),
        SelectFailure::Message(m) => e matches DatabaseError::ParseError(x) && x@ == m,
    }
}

/// The row versions visible in the snapshot that the filter selects, in
/// order; a filter that cannot be evaluated on a row leaves it out.
pub open spec fn selected_rows(cols: Seq<Column>, rows: Seq<Row>, snap: Snapshot, filter: Option<Condition>) -> Seq<Row>
    decreases rows.len(),
{
    if rows.len() == 0 {
        Seq::empty()
    } else {
        selected_rows(cols, rows.drop_last(), snap, filter)
            + if visible_in(rows.last(), snap) && filter_outcome(cols, rows.last().values@, filter) == Outcome::Holds(true) {
                seq![rows.last()]
            } else {
                Seq::empty()
            }
    }
}

/// The message for a plain column beside aggregates without GROUP BY.
pub open spec fn mixed_message() -> Seq<char> {
    "Cannot mix aggregates with regular columns without GROUP BY"@
}

/// The message for a CASE column beside aggregates without GROUP BY.
pub open spec fn case_with_aggregates_message() -> Seq<char> {
    "Cannot use CASE expressions with aggregates without GROUP BY"@
}

/// The aggregates of a SELECT list over the rows, with their headings; the
/// first entry that is not an aggregate, or the first aggregate that fails,
/// is the failure.
pub open spec fn aggregate_list(cols: Seq<Column>, rows: Seq<Row>, sel: Seq<SelectColumn>)
    -> Result<(Seq<AggregateView>, Seq<Seq<char>>), SelectFailure>
    decreases sel.len(),
{
    if sel.len() == 0 {
        Ok((Seq::empty(), Seq::empty()))
    } else {
        match aggregate_list(cols, rows, sel.drop_last()) {
            Err(f) => Err(f),
            Ok((vals, names)) => match sel.last() {
                SelectColumn::Aggregate(f) => match aggregate_of(cols, rows, f) {
                    Ok((v, n)) => Ok((vals.push(v), names.push(n))),
                    Err(o) => Err(SelectFailure::Eval(o)),
                },
                SelectColumn::Regular(_) => Err(SelectFailure::Message(mixed_message())),
                SelectColumn::Case(_) => Err(SelectFailure::Message(case_with_aggregates_message())),
            },
        }
    }
}

/// Every aggregate of the list can be computed over the rows.
pub open spec fn aggregates_fit(cols: Seq<Column>, rows: Seq<Row>, sel: Seq<SelectColumn>) -> bool {
    forall|i: int| 0 <= i < sel.len() ==> (#[trigger] sel[i] matches SelectColumn::Aggregate(f) ==> aggregate_fits(cols, rows, f))
}

/// A failure among the first entries is the failure of the whole list.
pub proof fn lemma_aggregate_list_prefix(cols: Seq<Column>, rows: Seq<Row>, sel: Seq<SelectColumn>, k: int, m: int)
    requires
        0 <= k <= m <= sel.len(),
        aggregate_list(cols, rows, sel.take(k)) is Err,
    ensures
        aggregate_list(cols, rows, sel.take(m)) == aggregate_list(cols, rows, sel.take(k)),
    decreases m - k,
{
    if m > k {
        lemma_aggregate_list_prefix(cols, rows, sel, k, m - 1);
        assert(sel.take(m).drop_last() =~= sel.take(m - 1));
    }
}

/// The rendered values of each row at the grouping positions.
pub open spec fn row_keys(rows: Seq<Row>, gp: Seq<usize>) -> Seq<Seq<Seq<char>>> {
    rows.map_values(|r: Row| row_cells(r.values@, gp))
}

/// The keys of the groups, in order of first appearance.
pub open spec fn group_keys(rows: Seq<Row>, gp: Seq<usize>) -> Seq<Seq<Seq<char>>> {
    first_occurrences(row_keys(rows, gp))
}

/// The rows of the group with key `key`, in order.
pub open spec fn members(rows: Seq<Row>, gp: Seq<usize>, key: Seq<Seq<char>>) -> Seq<Row>
    decreases rows.len(),
{
    if rows.len() == 0 {
        Seq::empty()
    } else {
        members(rows.drop_last(), gp, key) + if row_cells(rows.last().values@, gp) == key { seq![rows.last()] } else { Seq::empty() }
    }
}

/// The message for a plain column that is not grouped.
pub open spec fn ungrouped_message(name: Seq<char>) -> Seq<char> {
    "Column '"@ + name + "' must appear in GROUP BY clause or be used in an aggregate function"@
}

/// The headings of a grouped SELECT list: a plain column must be grouped; an
/// aggregate gives its heading (or its failure over no rows); a CASE column
/// its alias.
pub open spec fn group_headings(cols: Seq<Column>, sel: Seq<SelectColumn>, gnames: Seq<Seq<char>>) -> Result<Seq<Seq<char>>, SelectFailure>
    decreases sel.len(),
{
    if sel.len() == 0 {
        Ok(Seq::empty())
    } else {
        match group_headings(cols, sel.drop_last(), gnames) {
            Err(f) => Err(f),
            Ok(ns) => match sel.last() {
                SelectColumn::Regular(n) => if gnames.contains(n@) { Ok(ns.push(n@)) } else { Err(SelectFailure::Message(ungrouped_message(n@))) },
                SelectColumn::Aggregate(f) => match aggregate_of(cols, Seq::empty(), f) {
                    Ok((_, name)) => Ok(ns.push(name)),
                    Err(o) => Err(SelectFailure::Eval(o)),
                },
                SelectColumn::Case(c) => Ok(ns.push(alias_name(c))),
            },
        }
    }
}

/// Whether a name is `n`.
pub open spec fn is_name(n: Seq<char>) -> spec_fn(Seq<char>) -> bool {
    |g: Seq<char>| g == n
}

/// The cells of one group: a plain column shows the group's value of it, an
/// aggregate is taken over the group's rows, a CASE column is evaluated on the
/// group's first row (NULL for a group without rows); the first failure stops.
pub open spec fn group_cells(cols: Seq<Column>, sel: Seq<SelectColumn>, gnames: Seq<Seq<char>>, key: Seq<Seq<char>>, mem: Seq<Row>)
    -> Result<Seq<AggregateView>, SelectFailure>
    decreases sel.len(),
{
    if sel.len() == 0 {
        Ok(Seq::empty())
    } else {
        match group_cells(cols, sel.drop_last(), gnames, key, mem) {
            Err(f) => Err(f),
            Ok(vs) => match sel.last() {
                SelectColumn::Regular(n) => Ok(vs.push(AggregateView::Text(key[first_where(gnames, is_name(n@)).unwrap()]))),
                SelectColumn::Aggregate(f) => match aggregate_of(cols, mem, f) {
                    Ok((v, _)) => Ok(vs.push(v)),
                    Err(o) => Err(SelectFailure::Eval(o)),
                },
                SelectColumn::Case(c) => if mem.len() > 0 {
                    match case_value(cols, mem[0].values@, c.when_clauses@, else_or_null(c.else_value)) {
                        Ok(v) => Ok(vs.push(AggregateView::Text(display_of(v)))),
                        Err(o) => Err(SelectFailure::Eval(o)),
                    }
                } else {
                    Ok(vs.push(AggregateView::Text("NULL"@)))
                },
            },
        }
    }
}

/// The cells of the groups with the given keys, in order; the first failure stops.
pub open spec fn groups_cells(cols: Seq<Column>, sel: Seq<SelectColumn>, gnames: Seq<Seq<char>>, rows: Seq<Row>, gp: Seq<usize>,
    keys: Seq<Seq<Seq<char>>>) -> Result<Seq<Seq<AggregateView>>, SelectFailure>
    decreases keys.len(),
{
    if keys.len() == 0 {
        Ok(Seq::empty())
    } else {
        match groups_cells(cols, sel, gnames, rows, gp, keys.drop_last()) {
            Err(f) => Err(f),
            Ok(gs) => match group_cells(cols, sel, gnames, keys.last(), members(rows, gp, keys.last())) {
                Ok(c) => Ok(gs.push(c)),
                Err(f) => Err(f),
            },
        }
    }
}

/// Whether computed rows of aggregates are the ones viewed.
pub open spec fn rows_show(rows: Seq<Vec<AggregateValue>>, views: Seq<Seq<AggregateView>>) -> bool {
    &&& rows.len() == views.len()
    &&& forall|i: int| 0 <= i < rows.len() ==> (#[trigger] rows[i])@.len() == views[i].len()
        && forall|j: int| 0 <= j < rows[i]@.len() ==> shows(#[trigger] rows[i]@[j], views[i][j])
}

/// What a grouped SELECT answers before ordering: the grouping columns must
/// exist (else `ColumnNotFound`), the headings must be valid, and each group
/// of the selected rows, in order of first appearance, gives a row of cells.
pub open spec fn grouped_select(db: Database, sel: Seq<SelectColumn>, from: Seq<char>, filter: Option<Condition>,
    gnames: Seq<Seq<char>>, snap: Snapshot, r: Result<(Vec<Vec<AggregateValue>>, Vec<String>), DatabaseError>) -> bool {
    if !db.tables@.contains_key(from) {
        r matches Err(DatabaseError::TableNotFound(n)) && n@ == from
    } else {
        let t = db.tables@[from];
        match positions_of(t.columns@, gnames) {
            Err(n) => r matches Err(DatabaseError::ColumnNotFound(x)) && x@ == n,
            Ok(gp) => {
                let rows = selected_rows(t.columns@, t.rows@, snap, filter);
                match group_headings(t.columns@, sel, gnames) {
                    Err(f) => r matches Err(e) && failure_is(e, f),
                    Ok(names) => match groups_cells(t.columns@, sel, gnames, rows, gp, group_keys(rows, gp)) {
                        Err(f) => r matches Err(e) && failure_is(e, f),
                        Ok(gs) => r matches Ok(p) && rows_show(p.0@, gs) && string_views(p.1@) == names,
                    },
                }
            },
        }
    }
}

/// The cells of each group, one list per key, when they can all be computed.
pub proof fn lemma_groups_cells(cols: Seq<Column>, sel: Seq<SelectColumn>, gnames: Seq<Seq<char>>, rows: Seq<Row>,
    gp: Seq<usize>, keys: Seq<Seq<Seq<char>>>)
    ensures
        groups_cells(cols, sel, gnames, rows, gp, keys) matches Ok(gs) ==> {
            &&& gs.len() == keys.len()
            &&& forall|i: int| 0 <= i < keys.len()
                ==> group_cells(cols, sel, gnames, keys[i], members(rows, gp, keys[i])) == Ok::<Seq<AggregateView>, SelectFailure>(#[trigger] gs[i])
        },
    decreases keys.len(),
{
    if keys.len() > 0 {
        let p = keys.drop_last();
        lemma_groups_cells(cols, sel, gnames, rows, gp, p);
        if let Ok(gs) = groups_cells(cols, sel, gnames, rows, gp, keys) {
            assert forall|i: int| 0 <= i < keys.len()
                implies group_cells(cols, sel, gnames, keys[i], members(rows, gp, keys[i])) == Ok::<Seq<AggregateView>, SelectFailure>(#[trigger] gs[i]) by {
                if i < p.len() {
                    assert(keys[i] == p[i]);
                }
            }
        }
    }
}

/// What a successful GROUP BY answers, over the rows `rows` it selected and
/// the positions `gp` of its grouping columns: one row per distinct grouping
/// key, the keys in order of first appearance, every key of a selected row
/// among them, and each row's cells computed over that group's rows alone.
pub open spec fn one_row_per_group(cols: Seq<Column>, sel: Seq<SelectColumn>, gnames: Seq<Seq<char>>, rows: Seq<Row>,
    gp: Seq<usize>, out: Seq<Vec<AggregateValue>>) -> bool {
    let keys = group_keys(rows, gp);
    &&& out.len() == keys.len()
    &&& forall|a: int, b: int| 0 <= a < b < keys.len() ==> keys[a] != keys[b]
    &&& forall|k: Seq<Seq<char>>| #[trigger] keys.contains(k) <==> row_keys(rows, gp).contains(k)
    &&& forall|i: int| 0 <= i < keys.len()
        ==> row_shows_group(#[trigger] out[i], group_cells(cols, sel, gnames, keys[i], members(rows, gp, keys[i])))
}

/// Whether a computed row is the group's cells, when those can be computed.
pub open spec fn row_shows_group(row: Vec<AggregateValue>, cells: Result<Seq<AggregateView>, SelectFailure>) -> bool {
    match cells {
        Ok(c) => row@.len() == c.len() && forall|j: int| 0 <= j < c.len() ==> shows(#[trigger] row@[j], c[j]),
        Err(_) => false,
    }
}

/// GROUP BY answers one row per group: when a grouped SELECT succeeds, its
/// rows correspond one to one to the distinct grouping keys of the selected
/// rows (see `one_row_per_group`).
pub proof fn law_group_by_one_row_per_group(db: Database, sel: Seq<SelectColumn>, from: Seq<char>,
    filter: Option<Condition>, gnames: Seq<Seq<char>>, snap: Snapshot,
    r: Result<(Vec<Vec<AggregateValue>>, Vec<String>), DatabaseError>)
    requires
        grouped_select(db, sel, from, filter, gnames, snap, r),
    ensures
        r matches Ok(p) ==> db.tables@.contains_key(from) && (match positions_of(db.tables@[from].columns@, gnames) {
            Ok(gp) => one_row_per_group(db.tables@[from].columns@, sel, gnames,
                selected_rows(db.tables@[from].columns@, db.tables@[from].rows@, snap, filter), gp, p.0@),
            Err(_) => false,
        }),
{
    if db.tables@.contains_key(from) {
        let t = db.tables@[from];
        if let Ok(gp) = positions_of(t.columns@, gnames) {
            let rows = selected_rows(t.columns@, t.rows@, snap, filter);
            let keys = group_keys(rows, gp);
            lemma_groups_cells(t.columns@, sel, gnames, rows, gp, keys);
            lemma_first_occurrences_distinct(row_keys(rows, gp));
            assert forall|k: Seq<Seq<char>>| #[trigger] keys.contains(k) <==> row_keys(rows, gp).contains(k) by {
                lemma_first_occurrences_contains(row_keys(rows, gp), k);
            }
            if let Ok(pr) = r {
                if let Ok(names) = group_headings(t.columns@, sel, gnames) {
                    if let Ok(gs) = groups_cells(t.columns@, sel, gnames, rows, gp, keys) {
                        let out = pr.0@;
                        assert(rows_show(out, gs));
                        assert forall|i: int| 0 <= i < keys.len() implies
                            row_shows_group(#[trigger] out[i], group_cells(t.columns@, sel, gnames, keys[i], members(rows, gp, keys[i]))) by {
                            assert(group_cells(t.columns@, sel, gnames, keys[i], members(rows, gp, keys[i])) == Ok::<Seq<AggregateView>, SelectFailure>(gs[i]));
                            assert(out[i]@.len() == gs[i].len());
                        }
                        assert(out.len() == keys.len());
                        assert(keys == first_occurrences(row_keys(rows, gp)));
                        assert forall|a: int, b: int| 0 <= a < b < keys.len() implies keys[a] != keys[b] by {
                            assert(first_occurrences(row_keys(rows, gp))[a] != first_occurrences(row_keys(rows, gp))[b]);
                        }
                        assert(one_row_per_group(t.columns@, sel, gnames, rows, gp, out));
                    }
                }
            }
        }
    }
}

/// Every aggregate of the list can be computed over each group.
pub open spec fn groups_fit(db: Database, sel: Seq<SelectColumn>, from: Seq<char>, filter: Option<Condition>,
    gnames: Seq<Seq<char>>, snap: Snapshot) -> bool {
    let t = db.tables@[from];
    let rows = selected_rows(t.columns@, t.rows@, snap, filter);
    forall|gp: Seq<usize>, k: Seq<Seq<char>>|
        positions_of(t.columns@, gnames) == Ok::<Seq<usize>, Seq<char>>(gp) && #[trigger] group_keys(rows, gp).contains(k)
        ==> aggregates_fit(t.columns@, members(rows, gp, k), sel)
}

/// The first occurrences never repeat an element.
pub proof fn lemma_first_occurrences_distinct<T>(s: Seq<T>)
    ensures
        forall|a: int, b: int| 0 <= a < b < first_occurrences(s).len() ==> first_occurrences(s)[a] != first_occurrences(s)[b],
    decreases s.len(),
{
    if s.len() > 0 {
        let p = s.drop_last();
        lemma_first_occurrences_distinct(p);
        lemma_first_occurrences_contains(p, s.last());
        let f = first_occurrences(p);
        if !p.contains(s.last()) {
            let g = f.push(s.last());
            assert forall|a: int, b: int| 0 <= a < b < g.len() implies g[a] != g[b] by {
                if b == g.len() - 1 {
                    if g[a] == g[b] {
                        assert(f[a] == s.last());
                        assert(f.contains(s.last()));
                    }
                }
            }
        }
    }
}

/// Names found are as many as the names.
pub proof fn lemma_positions_of_len(cols: Seq<Column>, names: Seq<Seq<char>>)
    ensures
        positions_of(cols, names) matches Ok(p) ==> p.len() == names.len(),
    decreases names.len(),
{
    if names.len() > 0 {
        lemma_positions_of_len(cols, names.drop_last());
    }
}

/// Valid headings name only grouped plain columns.
pub proof fn lemma_headings_grouped(cols: Seq<Column>, sel: Seq<SelectColumn>, gnames: Seq<Seq<char>>)
    ensures
        group_headings(cols, sel, gnames) is Ok ==> forall|i: int| 0 <= i < sel.len() ==>
            (#[trigger] sel[i] matches SelectColumn::Regular(n) ==> gnames.contains(n@)),
    decreases sel.len(),
{
    if sel.len() > 0 {
        lemma_headings_grouped(cols, sel.drop_last(), gnames);
        if group_headings(cols, sel, gnames) is Ok {
            assert forall|i: int| 0 <= i < sel.len() implies (#[trigger] sel[i] matches SelectColumn::Regular(n) ==> gnames.contains(n@)) by {
                if i < sel.len() - 1 {
                    assert(sel.drop_last()[i] == sel[i]);
                }
            }
        }
    }
}

/// A failure among the first entries is the failure of the whole list of headings.
pub proof fn lemma_headings_prefix(cols: Seq<Column>, sel: Seq<SelectColumn>, gnames: Seq<Seq<char>>, k: int, m: int)
    requires
        0 <= k <= m <= sel.len(),
        group_headings(cols, sel.take(k), gnames) is Err,
    ensures
        group_headings(cols, sel.take(m), gnames) == group_headings(cols, sel.take(k), gnames),
    decreases m - k,
{
    if m > k {
        lemma_headings_prefix(cols, sel, gnames, k, m - 1);
        assert(sel.take(m).drop_last() =~= sel.take(m - 1));
    }
}

/// A failure among the first entries is the failure of the whole row of a group.
pub proof fn lemma_group_cells_prefix(cols: Seq<Column>, sel: Seq<SelectColumn>, gnames: Seq<Seq<char>>, key: Seq<Seq<char>>,
    mem: Seq<Row>, k: int, m: int)
    requires
        0 <= k <= m <= sel.len(),
        group_cells(cols, sel.take(k), gnames, key, mem) is Err,
    ensures
        group_cells(cols, sel.take(m), gnames, key, mem) == group_cells(cols, sel.take(k), gnames, key, mem),
    decreases m - k,
{
    if m > k {
        lemma_group_cells_prefix(cols, sel, gnames, key, mem, k, m - 1);
        assert(sel.take(m).drop_last() =~= sel.take(m - 1));
    }
}

/// A failure in the first groups is the failure of all of them.
pub proof fn lemma_groups_cells_prefix(cols: Seq<Column>, sel: Seq<SelectColumn>, gnames: Seq<Seq<char>>, rows: Seq<Row>,
    gp: Seq<usize>, keys: Seq<Seq<Seq<char>>>, k: int, m: int)
    requires
        0 <= k <= m <= keys.len(),
        groups_cells(cols, sel, gnames, rows, gp, keys.take(k)) is Err,
    ensures
        groups_cells(cols, sel, gnames, rows, gp, keys.take(m)) == groups_cells(cols, sel, gnames, rows, gp, keys.take(k)),
    decreases m - k,
{
    if m > k {
        lemma_groups_cells_prefix(cols, sel, gnames, rows, gp, keys, k, m - 1);
        assert(keys.take(m).drop_last() =~= keys.take(m - 1));
    }
}

/// Using `groups_fit` for one group.
pub proof fn lemma_group_fits(db: Database, sel: Seq<SelectColumn>, from: Seq<char>, filter: Option<Condition>,
    gnames: Seq<Seq<char>>, snap: Snapshot, gp: Seq<usize>, k: Seq<Seq<char>>)
    requires
        groups_fit(db, sel, from, filter, gnames, snap),
        positions_of(db.tables@[from].columns@, gnames) == Ok::<Seq<usize>, Seq<char>>(gp),
        group_keys(selected_rows(db.tables@[from].columns@, db.tables@[from].rows@, snap, filter), gp).contains(k),
    ensures
        aggregates_fit(db.tables@[from].columns@,
            members(selected_rows(db.tables@[from].columns@, db.tables@[from].rows@, snap, filter), gp, k), sel),
{
}

/// String order ("goes after") in direction `dir`.
pub open spec fn text_after(dir: SortOrder) -> spec_fn(Seq<char>, Seq<char>) -> bool {
    |a: Seq<char>, b: Seq<char>| match dir {
        SortOrder::Asc => chars_less(b, a),
        SortOrder::Desc => chars_less(a, b),
    }
}

/// ORDER BY (by the text of the heading named, first match), DISTINCT,
/// OFFSET and LIMIT over rendered rows; an unknown heading is the failure.
pub open spec fn finished(rows: Seq<Seq<Seq<char>>>, names: Seq<Seq<char>>, distinct: bool, order_by: Option<(String, SortOrder)>,
    limit: Option<usize>, offset: Option<usize>) -> Result<Seq<Seq<Seq<char>>>, Seq<char>> {
    let sorted = match order_by {
        None => Ok(rows),
        Some(ob) => match first_where(names, is_name(ob.0@)) {
            None => Err(ob.0@),
            Some(i) => Ok(sorted_order(rows.map_values(|row: Seq<Seq<char>>| row[i]), text_after(ob.1), rows.len())
                .map_values(|p: usize| rows[p as int])),
        },
    };
    match sorted {
        Err(c) => Err(c),
        Ok(s) => Ok(windowed(if distinct { first_occurrences(s) } else { s }, offset, limit)),
    }
}

/// The kind of a JOIN.
#[derive(Clone, Copy, Debug, PartialEq, Eq, Structural)]
pub enum JoinType {
    Inner,
    Left,
    Right,
}

/// JOIN table ON on_left = on_right, each side written `table.column`.
#[derive(Debug)]
pub struct JoinClause {
    pub join_type: JoinType,
    pub table: String,
    pub on_left: String,
    pub on_right: String,
}

/// How many times `c` occurs in `s`.
pub open spec fn occurrences(s: Seq<char>, c: char) -> nat
    decreases s.len(),
{
    if s.len() == 0 {
        0
    } else {
        occurrences(s.drop_last(), c) + if s.last() == c { 1nat } else { 0nat }
    }
}

/// A column reference `table.column`: exactly one dot, split around it.
pub open spec fn column_ref(s: Seq<char>) -> Option<(Seq<char>, Seq<char>)> {
    if occurrences(s, '.') == 1 {
        let i = first_where(s, is_dot()).unwrap();
        Some((s.take(i), s.skip(i + 1)))
    } else {
        None
    }
}

/// Whether a character is a dot.
pub open spec fn is_dot() -> spec_fn(char) -> bool {
    |c: char| c == '.'
}

/// The message for a malformed column reference.
pub open spec fn bad_reference_message(s: Seq<char>) -> Seq<char> {
    "Invalid column reference: "@ + s
}

/// The rendered values of a row, all of them.
pub open spec fn rendered(vals: Seq<Value>) -> Seq<Seq<char>> {
    vals.map_values(|v: Value| display_of(v))
}

/// `n` NULL cells.
pub open spec fn nulls(n: nat) -> Seq<Seq<char>> {
    Seq::new(n, |i: int| "NULL"@)
}

/// The joined rows of `main` with the versions of `others` visible in the
/// snapshot whose join value equals its own, in order.
pub open spec fn matches_of(main: Row, others: Seq<Row>, mi: int, ji: int, snap: Snapshot) -> Seq<Seq<Seq<char>>>
    decreases others.len(),
{
    if others.len() == 0 {
        Seq::empty()
    } else {
        let o = others.last();
        matches_of(main, others.drop_last(), mi, ji, snap)
            + if visible_in(o, snap) && value_eq(main.values@[mi], o.values@[ji]) {
                seq![rendered(main.values@) + rendered(o.values@)]
            } else {
                Seq::empty()
            }
    }
}

/// Whether some version of `others` visible in the snapshot holds value `v` in position `ji`.
pub open spec fn has_partner(v: Value, others: Seq<Row>, ji: int, snap: Snapshot) -> bool {
    exists|k: int| 0 <= k < others.len() && visible_in(#[trigger] others[k], snap) && value_eq(v, others[k].values@[ji])
}

/// The rows of the main side: for each visible main version its joined rows,
/// and for a LEFT JOIN a main version without partner padded with NULLs.
pub open spec fn main_side(mains: Seq<Row>, others: Seq<Row>, mi: int, ji: int, snap: Snapshot, left: bool, other_width: nat)
    -> Seq<Seq<Seq<char>>>
    decreases mains.len(),
{
    if mains.len() == 0 {
        Seq::empty()
    } else {
        let m = mains.last();
        main_side(mains.drop_last(), others, mi, ji, snap, left, other_width) + if !visible_in(m, snap) {
            Seq::empty()
        } else {
            matches_of(m, others, mi, ji, snap) + if left && matches_of(m, others, mi, ji, snap).len() == 0 {
                seq![rendered(m.values@) + nulls(other_width)]
            } else {
                Seq::empty()
            }
        }
    }
}

/// For a RIGHT JOIN, the visible versions of the joined table without a
/// visible partner in the main table, padded with NULLs in front.
pub open spec fn right_side(mains: Seq<Row>, others: Seq<Row>, mi: int, ji: int, snap: Snapshot, main_width: nat)
    -> Seq<Seq<Seq<char>>>
    decreases others.len(),
{
    if others.len() == 0 {
        Seq::empty()
    } else {
        let o = others.last();
        right_side(mains, others.drop_last(), mi, ji, snap, main_width)
            + if visible_in(o, snap) && !has_partner(o.values@[ji], mains, mi, snap) {
                seq![nulls(main_width) + rendered(o.values@)]
            } else {
                Seq::empty()
            }
    }
}

/// The headings of a join: `table.column` for each column of each table.
pub open spec fn join_headings(t: Seq<char>, cols: Seq<Column>) -> Seq<Seq<char>> {
    cols.map_values(|c: Column| t + "."@ + c.name@)
}

/// What a SELECT with one JOIN answers: all columns of both tables, rendered,
/// for the visible pairs whose join columns hold equal values (plus the
/// unmatched rows of a LEFT or RIGHT JOIN), then DISTINCT, OFFSET and LIMIT.
pub open spec fn join_select(db: Database, distinct: bool, from: Seq<char>, joins: Seq<JoinClause>, limit: Option<usize>,
    offset: Option<usize>, snap: Snapshot, r: Result<QueryResult, DatabaseError>) -> bool {
    if !db.tables@.contains_key(from) {
        r matches Err(DatabaseError::TableNotFound(n)) && n@ == from
    } else if joins.len() != 1 {
        r matches Err(DatabaseError::ParseError(m)) && m@ == "Currently only one JOIN is supported"@
    } else {
        let j = joins[0];
        if !db.tables@.contains_key(j.table@) {
            r matches Err(DatabaseError::TableNotFound(n)) && n@ == j.table@
        } else {
            match (column_ref(j.on_left@), column_ref(j.on_right@)) {
                (None, _) => r matches Err(DatabaseError::ParseError(m)) && m@ == bad_reference_message(j.on_left@),
                (Some(_), None) => r matches Err(DatabaseError::ParseError(m)) && m@ == bad_reference_message(j.on_right@),
                (Some(lr), Some(rr)) => {
                    let (main_col, join_col) = if lr.0 == from { (lr.1, rr.1) } else { (rr.1, lr.1) };
                    let mt = db.tables@[from];
                    let jt = db.tables@[j.table@];
                    match (first_column_named(mt.columns@, main_col), first_column_named(jt.columns@, join_col)) {
                        (None, _) => r matches Err(DatabaseError::ColumnNotFound(n)) && n@ == main_col,
                        (Some(_), None) => r matches Err(DatabaseError::ColumnNotFound(n)) && n@ == join_col,
                        (Some(mi), Some(ji)) => {
                            let rows = main_side(mt.rows@, jt.rows@, mi, ji, snap, j.join_type == JoinType::Left, jt.columns@.len())
                                + if j.join_type == JoinType::Right {
                                    right_side(mt.rows@, jt.rows@, mi, ji, snap, mt.columns@.len())
                                } else {
                                    Seq::empty()
                                };
                            rows_result(
                                r,
                                windowed(if distinct { first_occurrences(rows) } else { rows }, offset, limit),
                                join_headings(from, mt.columns@) + join_headings(j.table@, jt.columns@),
                            )
                        },
                    }
                },
            }
        }
    }
}

/// With no occurrence found, there are none.
pub proof fn lemma_occurrences_none(s: Seq<char>, c: char)
    requires
        forall|i: int| 0 <= i < s.len() ==> s[i] != c,
    ensures
        occurrences(s, c) == 0,
    decreases s.len(),
{
    if s.len() > 0 {
        assert forall|i: int| 0 <= i < s.drop_last().len() implies s.drop_last()[i] != c by {
            assert(s.drop_last()[i] == s[i]);
        }
        lemma_occurrences_none(s.drop_last(), c);
    }
}


/// Taking a window of a list with no repeats leaves no repeats.
proof fn lemma_windowed_distinct<T>(s: Seq<T>, offset: Option<usize>, limit: Option<usize>)
    requires
        forall|a: int, b: int| 0 <= a < b < s.len() ==> s[a] != s[b],
    ensures
        forall|a: int, b: int| 0 <= a < b < windowed(s, offset, limit).len() ==> windowed(s, offset, limit)[a] != windowed(s, offset, limit)[b],
{
    let w = windowed(s, offset, limit);
    let start: int = match offset {
        Some(o) => if (o as int) < s.len() { o as int } else { s.len() as int },
        None => 0,
    };
    let a0 = match offset {
        Some(o) => if (o as int) < s.len() { s.skip(o as int) } else { Seq::empty() },
        None => s,
    };
    assert(a0 =~= s.subrange(start, s.len() as int));
    assert forall|a: int, b: int| 0 <= a < b < w.len() implies w[a] != w[b] by {
        assert(w[a] == s[start + a]);
        assert(w[b] == s[start + b]);
    }
}

/// DISTINCT: a plain SELECT with DISTINCT never answers the same row twice.
pub proof fn law_distinct_select_has_no_repeats(db: Database, sel: Seq<SelectColumn>, from: Seq<char>, filter: Option<Condition>,
    order_by: Option<(String, SortOrder)>, limit: Option<usize>, offset: Option<usize>, snap: Snapshot,
    r: Result<QueryResult, DatabaseError>)
    requires
        regular_select(db, true, sel, from, filter, order_by, limit, offset, snap, r),
    ensures
        r matches Ok(QueryResult::Rows(rows, _)) ==> forall|a: int, b: int| 0 <= a < b < rows@.len() ==> grid(rows@)[a] != grid(rows@)[b],
{
    if db.tables@.contains_key(from) {
        let t = db.tables@[from];
        if let Ok(proj) = projection(t.columns@, sel) {
            if let Scanned::Rows(kept, cells) = scan(t.columns@, candidates(db, from, filter), snap, filter, proj, case_list(sel)) {
                let sorted = match order_by {
                    None => Some(cells),
                    Some(ob) => match first_column_named(t.columns@, ob.0@) {
                        None => None,
                        Some(idx) => Some(ordered(kept, cells, idx, ob.1)),
                    },
                };
                if let Some(rows) = sorted {
                    lemma_first_occurrences_distinct(rows);
                    lemma_windowed_distinct(first_occurrences(rows), offset, limit);
                }
            }
        }
    }
}

/// LIMIT: a plain SELECT with LIMIT `l` answers at most `l` rows.
pub proof fn law_limit_bounds_select(db: Database, distinct: bool, sel: Seq<SelectColumn>, from: Seq<char>, filter: Option<Condition>,
    order_by: Option<(String, SortOrder)>, l: usize, offset: Option<usize>, snap: Snapshot, r: Result<QueryResult, DatabaseError>)
    requires
        regular_select(db, distinct, sel, from, filter, order_by, Some(l), offset, snap, r),
    ensures
        r matches Ok(QueryResult::Rows(rows, _)) ==> rows@.len() <= l,
{
    if db.tables@.contains_key(from) {
        let t = db.tables@[from];
        if let Ok(proj) = projection(t.columns@, sel) {
            if let Scanned::Rows(kept, cells) = scan(t.columns@, candidates(db, from, filter), snap, filter, proj, case_list(sel)) {
                let sorted = match order_by {
                    None => Some(cells),
                    Some(ob) => match first_column_named(t.columns@, ob.0@) {
                        None => None,
                        Some(idx) => Some(ordered(kept, cells, idx, ob.1)),
                    },
                };
                if let Some(rows) = sorted {
                    let d = if distinct { first_occurrences(rows) } else { rows };
                    assert(windowed(d, offset, Some(l)).len() <= l);
                }
            }
        }
    }
}

/// Row `row` is the answer a SELECT with projection `proj` and CASE columns
/// `cases` gives for version `k`: `k` is visible in the snapshot, the filter
/// selects it, and `row` is its rendered projection followed by its CASE
/// results.
pub open spec fn answers_for(cols: Seq<Column>, k: Row, snap: Snapshot, filter: Option<Condition>, proj: Seq<usize>,
    cases: Seq<CaseExpression>, row: Seq<Seq<char>>) -> bool {
    &&& visible_in(k, snap)
    &&& filter_outcome(cols, k.values@, filter) == Outcome::Holds(true)
    &&& case_cells(cols, k.values@, cases) matches Ok(cc) && row == row_cells(k.values@, proj) + cc
}

/// Row `row` answers for some version among `rows` (see `answers_for`).
pub open spec fn answers_for_some(cols: Seq<Column>, rows: Seq<Row>, snap: Snapshot, filter: Option<Condition>,
    proj: Seq<usize>, cases: Seq<CaseExpression>, row: Seq<Seq<char>>) -> bool {
    exists|k: Row| #[trigger] rows.contains(k) && answers_for(cols, k, snap, filter, proj, cases, row)
}

/// The versions at given positions are versions of `rows`.
proof fn lemma_rows_at_within(rows: Seq<Row>, pos: Seq<usize>, x: Row)
    ensures
        rows_at(rows, pos).contains(x) ==> rows.contains(x),
    decreases pos.len(),
{
    if pos.len() > 0 {
        let p = rows_at(rows, pos.drop_last());
        lemma_rows_at_within(rows, pos.drop_last(), x);
        if rows_at(rows, pos).contains(x) {
            let i = choose|i: int| 0 <= i < rows_at(rows, pos).len() && rows_at(rows, pos)[i] == x;
            if i < p.len() {
                assert(p[i] == x);
            } else {
                assert(rows[pos.last() as int] == x);
            }
        }
    }
}

/// A scan keeps one rendered row per kept version.
proof fn lemma_scan_lengths(cols: Seq<Column>, cands: Seq<Row>, snap: Snapshot, filter: Option<Condition>, proj: Seq<usize>,
    cases: Seq<CaseExpression>)
    ensures
        scan(cols, cands, snap, filter, proj, cases) matches Scanned::Rows(kept, out) ==> kept.len() == out.len(),
    decreases cands.len(),
{
    if cands.len() > 0 {
        lemma_scan_lengths(cols, cands.drop_last(), snap, filter, proj, cases);
    }
}

/// Each row a scan keeps answers for a kept version among the candidates.
proof fn lemma_scan_answers(cols: Seq<Column>, cands: Seq<Row>, snap: Snapshot, filter: Option<Condition>, proj: Seq<usize>,
    cases: Seq<CaseExpression>)
    ensures
        scan(cols, cands, snap, filter, proj, cases) matches Scanned::Rows(kept, out) ==>
            forall|i: int| 0 <= i < out.len() ==> answers_for_some(cols, cands, snap, filter, proj, cases, #[trigger] out[i]),
    decreases cands.len(),
{
    if cands.len() > 0 {
        let c0 = cands.drop_last();
        lemma_scan_answers(cols, c0, snap, filter, proj, cases);
        if let Scanned::Rows(kept, out) = scan(cols, cands, snap, filter, proj, cases) {
            if let Scanned::Rows(k0, o0) = scan(cols, c0, snap, filter, proj, cases) {
                assert forall|i: int| 0 <= i < out.len() implies answers_for_some(cols, cands, snap, filter, proj, cases, #[trigger] out[i]) by {
                    if i < o0.len() {
                        assert(out[i] == o0[i]);
                        assert(answers_for_some(cols, c0, snap, filter, proj, cases, o0[i]));
                        let k = choose|k: Row| #[trigger] c0.contains(k) && answers_for(cols, k, snap, filter, proj, cases, o0[i]);
                        let j = choose|j: int| 0 <= j < c0.len() && c0[j] == k;
                        assert(cands[j] == k);
                        assert(cands.contains(k));
                    } else {
                        let r = cands.last();
                        assert(cands[cands.len() - 1] == r);
                        assert(cands.contains(r));
                        assert(answers_for(cols, r, snap, filter, proj, cases, out[i]));
                    }
                }
            }
        }
    }
}

/// SELECT answers only what it may: every row a plain SELECT answers is the
/// rendering (projection, then CASE results) of a version of the table that
/// is visible in the snapshot and that the filter selects.
pub proof fn law_select_answers_selected_versions(db: Database, distinct: bool, sel: Seq<SelectColumn>, from: Seq<char>,
    filter: Option<Condition>, order_by: Option<(String, SortOrder)>, limit: Option<usize>, offset: Option<usize>,
    snap: Snapshot, r: Result<QueryResult, DatabaseError>)
    requires
        regular_select(db, distinct, sel, from, filter, order_by, limit, offset, snap, r),
    ensures
        r matches Ok(QueryResult::Rows(rows, _)) ==> db.tables@.contains_key(from) && (projection(db.tables@[from].columns@, sel)
            matches Ok(proj) && forall|i: int| 0 <= i < rows@.len() ==> answers_for_some(db.tables@[from].columns@,
                db.tables@[from].rows@, snap, filter, proj, case_list(sel), #[trigger] grid(rows@)[i])),
{
    if db.tables@.contains_key(from) {
        let t = db.tables@[from];
        let cols = t.columns@;
        if let Ok(proj) = projection(cols, sel) {
            let cands = candidates(db, from, filter);
            let cases = case_list(sel);
            lemma_scan_answers(cols, cands, snap, filter, proj, cases);
            if let Scanned::Rows(kept, cells) = scan(cols, cands, snap, filter, proj, cases) {
                lemma_scan_lengths(cols, cands, snap, filter, proj, cases);
                // Every scanned row answers for a version of the table.
                assert forall|x: Seq<Seq<char>>| cells.contains(x) implies answers_for_some(cols, t.rows@, snap, filter, proj, cases, x) by {
                    let j = choose|j: int| 0 <= j < cells.len() && cells[j] == x;
                    assert(answers_for_some(cols, cands, snap, filter, proj, cases, cells[j]));
                    let k = choose|k: Row| #[trigger] cands.contains(k) && answers_for(cols, k, snap, filter, proj, cases, cells[j]);
                    match usable_index(db, from, filter) {
                        None => {},
                        Some((ki, vals)) => { lemma_rows_at_within(t.rows@, lookup_positions(db.indexes.vals()[ki], vals), k); },
                    }
                    assert(t.rows@.contains(k));
                }
                let sorted = match order_by {
                    None => Some(cells),
                    Some(ob) => match first_column_named(cols, ob.0@) {
                        None => None,
                        Some(idx) => Some(ordered(kept, cells, idx, ob.1)),
                    },
                };
                if let Some(srt) = sorted {
                    assert forall|x: Seq<Seq<char>>| srt.contains(x) implies cells.contains(x) by {
                        if let Some(ob) = order_by {
                            if let Some(idx) = first_column_named(cols, ob.0@) {
                                let keys = kept.map_values(|k: Row| k.values@[idx]);
                                lemma_sorted_order_in_range(keys, value_after(ob.1), keys.len());
                                let so = sorted_order(keys, value_after(ob.1), keys.len());
                                let j = choose|j: int| 0 <= j < srt.len() && srt[j] == x;
                                assert(srt[j] == cells[so[j] as int]);
                                assert(so[j] < keys.len());
                            }
                        }
                    }
                    let d = if distinct { first_occurrences(srt) } else { srt };
                    assert forall|x: Seq<Seq<char>>| d.contains(x) implies srt.contains(x) by {
                        if distinct { lemma_first_occurrences_contains(srt, x); }
                    }
                    let w = windowed(d, offset, limit);
                    assert forall|x: Seq<Seq<char>>| w.contains(x) implies d.contains(x) by {
                        let j = choose|j: int| 0 <= j < w.len() && w[j] == x;
                        let a = match offset {
                            Some(o) => if (o as int) < d.len() { d.skip(o as int) } else { Seq::empty() },
                            None => d,
                        };
                        assert(a.contains(x)) by {
                            if limit matches Some(l) && (l as int) < a.len() { assert(a[j] == x); } else { assert(a[j] == x); }
                        }
                        let j2 = choose|j2: int| 0 <= j2 < a.len() && a[j2] == x;
                        match offset {
                            Some(o) => if (o as int) < d.len() { assert(d[o + j2] == x); } else {},
                            None => {},
                        }
                    }
                    if let Ok(QueryResult::Rows(rows, _)) = r {
                        assert forall|i: int| 0 <= i < rows@.len() implies answers_for_some(cols, t.rows@, snap, filter, proj, cases,
                            #[trigger] grid(rows@)[i]) by {
                            assert(grid(rows@) == w);
                            assert(w.contains(w[i]));
                        }
                    }
                }
            }
        }
    }
}

/// Inserting a position that is not yet there keeps the positions distinct.
proof fn lemma_insert_stable_distinct<K>(s: Seq<usize>, x: usize, keys: Seq<K>, after: spec_fn(K, K) -> bool)
    requires
        forall|a: int, b: int| 0 <= a < b < s.len() ==> s[a] != s[b],
        !s.contains(x),
    ensures
        forall|a: int, b: int| 0 <= a < b < insert_stable(s, x, keys, after).len() ==>
            insert_stable(s, x, keys, after)[a] != insert_stable(s, x, keys, after)[b],
    decreases s.len(),
{
    lemma_insert_stable_elements(s, x, keys, after);
    if s.len() > 0 && after(keys[s.last() as int], keys[x as int]) {
        let p = s.drop_last();
        assert forall|a: int, b: int| 0 <= a < b < p.len() implies p[a] != p[b] by {
            assert(p[a] == s[a] && p[b] == s[b]);
        }
        if p.contains(x) {
            let w = choose|w: int| 0 <= w < p.len() && p[w] == x;
            assert(s[w] == x);
        }
        lemma_insert_stable_distinct(p, x, keys, after);
        lemma_insert_stable_elements(p, x, keys, after);
        let t = insert_stable(s, x, keys, after);
        let q = insert_stable(p, x, keys, after);
        assert forall|a: int, b: int| 0 <= a < b < t.len() implies t[a] != t[b] by {
            if b == t.len() - 1 {
                assert(t[b] == s.last());
                if q[a] == x {
                } else {
                    let w = choose|w: int| 0 <= w < p.len() && p[w] == q[a];
                    assert(s[w] == p[w]);
                    assert(s[s.len() - 1] == s.last());
                }
            } else {
                assert(t[a] == q[a] && t[b] == q[b]);
            }
        }
    } else if s.len() > 0 {
        let t = s.push(x);
        assert forall|a: int, b: int| 0 <= a < b < t.len() implies t[a] != t[b] by {
            if b == t.len() - 1 {
                assert(t[a] == s[a]);
            }
        }
    }
}

/// ORDER BY neither drops nor repeats a row: the stable order of `0..n`
/// holds each position below `n` exactly once.
pub proof fn law_sorted_order_is_permutation<K>(keys: Seq<K>, after: spec_fn(K, K) -> bool, n: nat)
    requires
        n <= usize::MAX,
    ensures
        sorted_order(keys, after, n).len() == n,
        forall|i: usize| (i as int) < n ==> #[trigger] sorted_order(keys, after, n).contains(i),
        forall|a: int, b: int| 0 <= a < b < n ==> sorted_order(keys, after, n)[a] != sorted_order(keys, after, n)[b],
    decreases n,
{
    lemma_sorted_order_in_range(keys, after, n);
    if n > 0 {
        let p = sorted_order(keys, after, (n - 1) as nat);
        law_sorted_order_is_permutation(keys, after, (n - 1) as nat);
        lemma_sorted_order_in_range(keys, after, (n - 1) as nat);
        if p.contains((n - 1) as usize) {
            let w = choose|w: int| 0 <= w < p.len() && p[w] == (n - 1) as usize;
            assert(p[w] < (n - 1) as usize);
        }
        lemma_insert_stable_distinct(p, (n - 1) as usize, keys, after);
        lemma_insert_stable_elements(p, (n - 1) as usize, keys, after);
        let t = sorted_order(keys, after, n);
        assert forall|i: usize| (i as int) < n implies #[trigger] t.contains(i) by {
            if (i as int) < n - 1 {
                assert(p.contains(i));
                let w = choose|w: int| 0 <= w < p.len() && p[w] == i;
                lemma_insert_stable_keeps(p, (n - 1) as usize, keys, after, w);
            } else {
                lemma_insert_stable_has_x(p, (n - 1) as usize, keys, after);
            }
        }
    }
}

/// Every position of `s` is still there after an insertion.
proof fn lemma_insert_stable_keeps<K>(s: Seq<usize>, x: usize, keys: Seq<K>, after: spec_fn(K, K) -> bool, w: int)
    requires
        0 <= w < s.len(),
    ensures
        insert_stable(s, x, keys, after).contains(s[w]),
    decreases s.len(),
{
    let t = insert_stable(s, x, keys, after);
    if after(keys[s.last() as int], keys[x as int]) {
        if w == s.len() - 1 {
            assert(t[t.len() - 1] == s[w]);
        } else {
            lemma_insert_stable_keeps(s.drop_last(), x, keys, after, w);
            let q = insert_stable(s.drop_last(), x, keys, after);
            let v = choose|v: int| 0 <= v < q.len() && q[v] == s.drop_last()[w];
            assert(t[v] == q[v]);
        }
    } else {
        assert(t[w] == s[w]);
    }
}

/// The inserted position is there after an insertion.
proof fn lemma_insert_stable_has_x<K>(s: Seq<usize>, x: usize, keys: Seq<K>, after: spec_fn(K, K) -> bool)
    ensures
        insert_stable(s, x, keys, after).contains(x),
    decreases s.len(),
{
    let t = insert_stable(s, x, keys, after);
    if s.len() == 0 {
        assert(t[0] == x);
    } else if after(keys[s.last() as int], keys[x as int]) {
        lemma_insert_stable_has_x(s.drop_last(), x, keys, after);
        let q = insert_stable(s.drop_last(), x, keys, after);
        let v = choose|v: int| 0 <= v < q.len() && q[v] == x;
        assert(t[v] == q[v]);
    } else {
        assert(t[s.len() as int] == x);
    }
}

/// A "goes after" relation fit for sorting on the first `n` keys: asymmetric,
/// and "does not go after" is transitive.
pub open spec fn sortable<K>(keys: Seq<K>, after: spec_fn(K, K) -> bool, n: nat) -> bool {
    &&& forall|a: int, b: int| 0 <= a < n && 0 <= b < n && #[trigger] after(keys[a], keys[b]) ==> !after(keys[b], keys[a])
    &&& forall|a: int, b: int, c: int| 0 <= a < n && 0 <= b < n && 0 <= c < n
        && !#[trigger] after(keys[a], keys[b]) && !#[trigger] after(keys[b], keys[c]) ==> !after(keys[a], keys[c])
}

/// Inserting into a sorted list keeps it sorted.
proof fn lemma_insert_stable_sorted<K>(s: Seq<usize>, x: usize, keys: Seq<K>, after: spec_fn(K, K) -> bool, n: nat)
    requires
        sortable(keys, after, n),
        x < n,
        forall|m: int| 0 <= m < s.len() ==> (#[trigger] s[m]) < n,
        forall|a: int, b: int| 0 <= a < b < s.len() ==> !after(keys[s[a] as int], keys[s[b] as int]),
    ensures
        ({
            let t = insert_stable(s, x, keys, after);
            forall|a: int, b: int| 0 <= a < b < t.len() ==> !after(keys[t[a] as int], keys[t[b] as int])
        }),
    decreases s.len(),
{
    let t = insert_stable(s, x, keys, after);
    if s.len() == 0 {
    } else if after(keys[s.last() as int], keys[x as int]) {
        let p = s.drop_last();
        assert forall|a: int, b: int| 0 <= a < b < p.len() implies !after(keys[p[a] as int], keys[p[b] as int]) by {
            assert(p[a] == s[a] && p[b] == s[b]);
        }
        lemma_insert_stable_sorted(p, x, keys, after, n);
        lemma_insert_stable_elements(p, x, keys, after);
        let q = insert_stable(p, x, keys, after);
        let l = s.last();
        assert forall|a: int, b: int| 0 <= a < b < t.len() implies !after(keys[t[a] as int], keys[t[b] as int]) by {
            if b == t.len() - 1 {
                assert(t[b] == l);
                if q[a] == x {
                    assert(after(keys[l as int], keys[x as int]));
                } else {
                    let w = choose|w: int| 0 <= w < p.len() && p[w] == q[a];
                    assert(s[w] == q[a]);
                    assert(s[s.len() - 1] == l);
                }
            } else {
                assert(t[a] == q[a] && t[b] == q[b]);
            }
        }
    } else {
        let l = s.last();
        assert(!after(keys[l as int], keys[x as int]));
        assert forall|a: int, b: int| 0 <= a < b < t.len() implies !after(keys[t[a] as int], keys[t[b] as int]) by {
            if b == t.len() - 1 {
                assert(t[b] == x);
                if a < s.len() - 1 {
                    assert(!after(keys[s[a] as int], keys[s[s.len() - 1] as int]));
                    assert(s[s.len() - 1] == l);
                    assert(t[a] == s[a]);
                    assert(s[a] < n);
                }
            } else {
                assert(t[a] == s[a] && t[b] == s[b]);
            }
        }
    }
}

/// ORDER BY sorts: with a relation fit for sorting, no position in the
/// stable order goes after a later one.
pub proof fn law_sorted_order_is_sorted<K>(keys: Seq<K>, after: spec_fn(K, K) -> bool, n: nat)
    requires
        n <= usize::MAX,
        sortable(keys, after, n),
    ensures
        forall|a: int, b: int| 0 <= a < b < sorted_order(keys, after, n).len() ==>
            !after(keys[sorted_order(keys, after, n)[a] as int], keys[sorted_order(keys, after, n)[b] as int]),
    decreases n,
{
    if n > 0 {
        let m = (n - 1) as nat;
        assert(sortable(keys, after, m));
        law_sorted_order_is_sorted(keys, after, m);
        lemma_sorted_order_in_range(keys, after, m);
        lemma_insert_stable_sorted(sorted_order(keys, after, m), m as usize, keys, after, n);
    }
}

/// "Does not sort before" is transitive.
proof fn lemma_not_less_transitive(x: Seq<char>, y: Seq<char>, z: Seq<char>)
    requires
        !chars_less(y, x),
        !chars_less(z, y),
    ensures
        !chars_less(z, x),
{
    lemma_chars_less_total(x, y);
    lemma_chars_less_total(y, z);
    if chars_less(z, x) {
        if x == y {
            assert(chars_less(z, y));
        } else {
            assert(chars_less(x, y));
            lemma_chars_less_transitive(z, x, y);
        }
    }
}

/// Integers and NULLs sort fit for sorting, in either direction.
pub proof fn law_integer_keys_sortable(keys: Seq<Value>, dir: SortOrder, n: nat)
    requires
        n <= keys.len(),
        forall|i: int| 0 <= i < n ==> (#[trigger] keys[i]) is Integer || keys[i] is Null,
    ensures
        sortable(keys, value_after(dir), n),
{
    let after = value_after(dir);
    assert forall|a: int, b: int| 0 <= a < n && 0 <= b < n && #[trigger] after(keys[a], keys[b]) implies !after(keys[b], keys[a]) by {
        assert(keys[a] is Integer || keys[a] is Null);
        assert(keys[b] is Integer || keys[b] is Null);
    }
    assert forall|a: int, b: int, c: int| 0 <= a < n && 0 <= b < n && 0 <= c < n
        && !#[trigger] after(keys[a], keys[b]) && !#[trigger] after(keys[b], keys[c]) implies !after(keys[a], keys[c]) by {
        assert(keys[a] is Integer || keys[a] is Null);
        assert(keys[b] is Integer || keys[b] is Null);
        assert(keys[c] is Integer || keys[c] is Null);
    }
}

/// Doubles other than NaN sort fit for sorting, in either direction.
proof fn lemma_real_keys_sortable(keys: Seq<Value>, dir: SortOrder, n: nat)
    requires
        n <= keys.len(),
        forall|i: int| 0 <= i < n ==> (#[trigger] keys[i]) is Real && !real_is_nan(keys[i]->Real_0.bits),
    ensures
        sortable(keys, value_after(dir), n),
{
    let after = value_after(dir);
    assert forall|a: int, b: int| 0 <= a < n && 0 <= b < n && #[trigger] after(keys[a], keys[b]) implies !after(keys[b], keys[a]) by {
        assert(keys[a] is Real && keys[b] is Real);
    }
    assert forall|a: int, b: int, c: int| 0 <= a < n && 0 <= b < n && 0 <= c < n
        && !#[trigger] after(keys[a], keys[b]) && !#[trigger] after(keys[b], keys[c]) implies !after(keys[a], keys[c]) by {
        assert(keys[a] is Real && keys[b] is Real && keys[c] is Real);
    }
}

/// ORDER BY over doubles sorts them by number: in the order ORDER BY gives
/// `n` double keys (none of them NaN), ascending keys never go down and
/// descending keys never go up.
pub proof fn law_real_keys_sort_numerically(keys: Seq<Value>, n: nat)
    requires
        n <= keys.len(),
        n <= usize::MAX,
        forall|i: int| 0 <= i < n ==> (#[trigger] keys[i]) is Real && !real_is_nan(keys[i]->Real_0.bits),
    ensures
        ({
            let up = sorted_order(keys, value_after(SortOrder::Asc), n);
            forall|a: int, b: int| 0 <= a < b < up.len()
                ==> real_rank(keys[up[a] as int]->Real_0.bits) <= real_rank(keys[up[b] as int]->Real_0.bits)
        }),
        ({
            let down = sorted_order(keys, value_after(SortOrder::Desc), n);
            forall|a: int, b: int| 0 <= a < b < down.len()
                ==> real_rank(keys[down[a] as int]->Real_0.bits) >= real_rank(keys[down[b] as int]->Real_0.bits)
        }),
{
    lemma_real_keys_sortable(keys, SortOrder::Asc, n);
    lemma_real_keys_sortable(keys, SortOrder::Desc, n);
    law_sorted_order_is_sorted(keys, value_after(SortOrder::Asc), n);
    law_sorted_order_is_sorted(keys, value_after(SortOrder::Desc), n);
    lemma_sorted_order_in_range(keys, value_after(SortOrder::Asc), n);
    lemma_sorted_order_in_range(keys, value_after(SortOrder::Desc), n);
    let up = sorted_order(keys, value_after(SortOrder::Asc), n);
    let down = sorted_order(keys, value_after(SortOrder::Desc), n);
    assert forall|a: int, b: int| 0 <= a < b < up.len()
        implies real_rank(keys[up[a] as int]->Real_0.bits) <= real_rank(keys[up[b] as int]->Real_0.bits) by {
        assert(up[a] < n && up[b] < n);
        assert(keys[up[a] as int] is Real && keys[up[b] as int] is Real);
        assert(!value_after(SortOrder::Asc)(keys[up[a] as int], keys[up[b] as int]));
    }
    assert forall|a: int, b: int| 0 <= a < b < down.len()
        implies real_rank(keys[down[a] as int]->Real_0.bits) >= real_rank(keys[down[b] as int]->Real_0.bits) by {
        assert(down[a] < n && down[b] < n);
        assert(keys[down[a] as int] is Real && keys[down[b] as int] is Real);
        assert(!value_after(SortOrder::Desc)(keys[down[a] as int], keys[down[b] as int]));
    }
}

/// Texts and NULLs sort fit for sorting, in either direction.
pub proof fn law_text_keys_sortable(keys: Seq<Value>, dir: SortOrder, n: nat)
    requires
        n <= keys.len(),
        forall|i: int| 0 <= i < n ==> (#[trigger] keys[i]) is Text || keys[i] is Null,
    ensures
        sortable(keys, value_after(dir), n),
{
    let after = value_after(dir);
    assert forall|a: int, b: int| 0 <= a < n && 0 <= b < n && #[trigger] after(keys[a], keys[b]) implies !after(keys[b], keys[a]) by {
        assert(keys[a] is Text || keys[a] is Null);
        assert(keys[b] is Text || keys[b] is Null);
        if keys[a] is Text && keys[b] is Text {
            lemma_chars_less_asymmetric(keys[a]->Text_0@, keys[b]->Text_0@);
        }
    }
    assert forall|a: int, b: int, c: int| 0 <= a < n && 0 <= b < n && 0 <= c < n
        && !#[trigger] after(keys[a], keys[b]) && !#[trigger] after(keys[b], keys[c]) implies !after(keys[a], keys[c]) by {
        assert(keys[a] is Text || keys[a] is Null);
        assert(keys[b] is Text || keys[b] is Null);
        assert(keys[c] is Text || keys[c] is Null);
        if keys[a] is Text && keys[b] is Text && keys[c] is Text {
            let x = keys[a]->Text_0@;
            let y = keys[b]->Text_0@;
            let z = keys[c]->Text_0@;
            lemma_chars_less_asymmetric(x, y);
            lemma_chars_less_asymmetric(y, z);
            lemma_chars_less_asymmetric(x, z);
            lemma_chars_less_asymmetric(y, x);
            lemma_chars_less_asymmetric(z, y);
            lemma_chars_less_asymmetric(z, x);
            match dir {
                SortOrder::Asc => lemma_not_less_transitive(x, y, z),
                SortOrder::Desc => lemma_not_less_transitive(z, y, x),
            }
        }
    }
}

/// Runs SELECT statements.
pub struct QueryExecutor;

impl QueryExecutor {
    /// How `a` sorts against `b`.
    pub fn compare_values(a: &Value, b: &Value) -> (o: ValueOrder)
        ensures
            o == value_order(*a, *b),
    {
        match (a, b) {
            (Value::Integer(x), Value::Integer(y)) =>
                if *x < *y { ValueOrder::Less } else if *x > *y { ValueOrder::Greater } else { ValueOrder::Equal },
            (Value::Real(x), Value::Real(y)) =>
                if real_less(x.bits, y.bits) {
                    ValueOrder::Less
                } else if real_less(y.bits, x.bits) {
                    ValueOrder::Greater
                } else {
                    ValueOrder::Equal
                },
            (Value::Text(x), Value::Text(y)) => {
                let xs = chars_of(x.as_str());
                let ys = chars_of(y.as_str());
                if chars_lt(&xs, &ys) {
                    ValueOrder::Less
                } else if chars_lt(&ys, &xs) {
                    ValueOrder::Greater
                } else {
                    ValueOrder::Equal
                }
            },
            (Value::Boolean(x), Value::Boolean(y)) =>
                if !*x && *y { ValueOrder::Less } else if *x && !*y { ValueOrder::Greater } else { ValueOrder::Equal },
            (Value::Null, Value::Null) => ValueOrder::Equal,
            (Value::Null, _) => ValueOrder::Less,
            (_, Value::Null) => ValueOrder::Greater,
            _ => ValueOrder::Equal,
        }
    }

    /// Whether, sorting in direction `dir`, a row keyed `a` goes after one keyed `b`.
    fn after(a: &Value, b: &Value, dir: SortOrder) -> (r: bool)
        ensures
            r == goes_after(*a, *b, dir),
    {
        let o = Self::compare_values(a, b);
        match dir {
            SortOrder::Asc => o == ValueOrder::Greater,
            SortOrder::Desc => o == ValueOrder::Less,
        }
    }

    /// Evaluates a CASE expression for `row`, whose values follow `columns`.
    pub fn evaluate_case(case_expr: &CaseExpression, columns: &Vec<Column>, row: &Row) -> (r: Result<Value, DatabaseError>)
        requires
            fits(columns@, row.values@),
        ensures
            match case_value(columns@, row.values@, case_expr.when_clauses@, else_or_null(case_expr.else_value)) {
                Ok(v) => r matches Ok(w) && identical(w, v),
                Err(o) => r matches Err(e) && failure_reported(e, o),
            },
    {
        let ghost cols = columns@;
        let ghost vals = row.values@;
        let ghost whens = case_expr.when_clauses@;
        let ghost otherwise = else_or_null(case_expr.else_value);
        let mut i: usize = 0;
        assert(whens.skip(0) =~= whens);
        while i < case_expr.when_clauses.len()
            invariant
                i <= whens.len(),
                whens == case_expr.when_clauses@,
                cols == columns@,
                vals == row.values@,
                fits(cols, vals),
                otherwise == else_or_null(case_expr.else_value),
                case_value(cols, vals, whens, otherwise) == case_value(cols, vals, whens.skip(i as int), otherwise),
            decreases whens.len() - i,
        {
            let when = &case_expr.when_clauses[i];
            proof {
                lemma_fits_reads(cols, vals, when.condition);
                assert(whens.skip(i as int)[0] == *when);
                assert(whens.skip(i as int).drop_first() =~= whens.skip(i as int + 1));
            }
            match ConditionEvaluator::evaluate_with_columns(columns, row, &when.condition) {
                Ok(true) => {
                    return Ok(when.result.duplicate());
                },
                Ok(false) => {},
                Err(e) => {
                    return Err(e);
                },
            }
            i = i + 1;
        }
        assert(whens.skip(i as int).len() == 0);
        match &case_expr.else_value {
            Some(v) => Ok(v.duplicate()),
            None => Ok(Value::Null),
        }
    }
}

impl QueryExecutor {
    /// Appends the column-value pairs compared for equality along a chain of ANDs.
    pub fn extract_equals_from_and<'a>(cond: &'a Condition, result: &mut Vec<(&'a str, &'a Value)>)
        ensures
            pair_views(final(result)@) == pair_views(old(result)@) + equals_pairs(*cond),
        decreases cond,
    {
        match cond {
            Condition::Equals(col, val) => {
                result.push((col.as_str(), val));
                assert(pair_views(result@) =~= pair_views(old(result)@) + equals_pairs(*cond));
            },
            Condition::And(left, right) => {
                Self::extract_equals_from_and(left, result);
                Self::extract_equals_from_and(right, result);
                assert(pair_views(result@) =~= pair_views(old(result)@) + equals_pairs(*cond));
            },
            _ => {
                assert(pair_views(result@) =~= pair_views(old(result)@) + equals_pairs(*cond));
            },
        }
    }

    /// The value the first pair on column `col` compares with, if a pair names it.
    fn value_for<'a>(pairs: &Vec<(&'a str, &'a Value)>, col: &str) -> (r: Option<&'a Value>)
        ensures
            match first_where(pair_views(pairs@), names_col(col@)) {
                Some(j) => r == Some(pairs@[j].1),
                None => r is None,
            },
    {
        let ghost pv = pair_views(pairs@);
        let ghost p = names_col(col@);
        let mut j: usize = 0;
        while j < pairs.len()
            invariant
                j <= pairs@.len(),
                pv == pair_views(pairs@),
                p == names_col(col@),
                first_where(pv.take(j as int), p) is None,
            decreases pairs@.len() - j,
        {
            let hit = str_equal(pairs[j].0, col);
            assert(hit == p(pv[j as int]));
            proof {
                lemma_first_where_step(pv, p, j as int);
            }
            if hit {
                proof {
                    lemma_first_where_prefix(pv, p, j as int + 1, pv.len() as int);
                    assert(pv.take(pv.len() as int) =~= pv);
                }
                return Some(pairs[j].1);
            }
            j = j + 1;
        }
        assert(pv.take(pv.len() as int) =~= pv);
        None
    }

    /// Whether index `ix` of `table_name` covers the chain of equalities `pairs`.
    fn covers(ix: &Index, table_name: &str, pairs: &Vec<(&str, &Value)>) -> (b: bool)
        ensures
            b == covers_pairs(*ix, table_name@, pair_views(pairs@)),
    {
        if !str_equal(ix.table_name(), table_name) || !ix.is_composite() {
            return false;
        }
        let cols = ix.column_names();
        if cols.len() != pairs.len() {
            return false;
        }
        let mut k: usize = 0;
        while k < cols.len()
            invariant
                k <= cols@.len(),
                cols@ == ix.spec_columns(),
                forall|m: int| 0 <= m < k ==> (first_where(pair_views(pairs@), names_col(#[trigger] cols@[m]@)) is Some),
            decreases cols@.len() - k,
        {
            if Self::value_for(pairs, cols[k].as_str()).is_none() {
                return false;
            }
            k = k + 1;
        }
        true
    }

    /// The index a SELECT on `table_name` filtered by `filter` reads through,
    /// by position among the database's indexes, with the values to look up.
    pub fn find_usable_index<'a>(db: &Database, table_name: &str, filter: &'a Option<Condition>)
        -> (r: Option<(usize, Vec<&'a Value>)>)
        requires
            db.wf(),
            indexes_have_columns(*db, table_name@),
        ensures
            match r {
                None => usable_index(*db, table_name@, *filter) is None,
                Some(p) => usable_index(*db, table_name@, *filter) == Some((p.0 as int, deref_values(p.1@))),
            },
    {
        let cond = match filter {
            Some(c) => c,
            None => return None,
        };
        let ghost table = table_name@;
        let ghost ixs = db.indexes.vals();
        let mut pairs: Vec<(&'a str, &'a Value)> = Vec::new();
        Self::extract_equals_from_and(cond, &mut pairs);
        assert(pair_views(pairs@) =~= equals_pairs(*cond));
        let ghost pv = pair_views(pairs@);
        let ghost comp = pairs_covered(table, pv);
        proof {
            db.indexes.lemma_lengths();
        }
        let n = db.indexes.len();
        if pairs.len() >= 2 {
            let mut i: usize = 0;
            while i < n
                invariant
                    n == ixs.len(),
                    db.indexes.vals() == ixs,
                    db.indexes.keys().len() == ixs.len(),
                    pairs@.len() >= 2,
                    *filter == Some(*cond),
                    i <= n,
                    table == table_name@,
                    pv == pair_views(pairs@),
                    pv == equals_pairs(*cond),
                    comp == pairs_covered(table, pv),
                    first_where(ixs.take(i as int), comp) is None,
                decreases n - i,
            {
                let index = db.indexes.value_at(i);
                assert(ixs[i as int] == *index);
                let chosen = Self::covers(index, table_name, &pairs);
                assert(chosen == comp(ixs[i as int]));
                proof {
                    lemma_first_where_step(ixs, comp, i as int);
                    if chosen {
                        lemma_first_where_prefix(ixs, comp, i as int + 1, n as int);
                        assert(ixs.take(n as int) =~= ixs);
                    }
                }
                if chosen {
                    let cols = index.column_names();
                    let mut values: Vec<&'a Value> = Vec::new();
                    let mut k: usize = 0;
                    while k < cols.len()
                        invariant
                            k <= cols@.len(),
                            i < ixs.len(),
                            cols@ == ixs[i as int].spec_columns(),
                            covers_pairs(ixs[i as int], table, pv),
                            pv == pair_views(pairs@),
                            deref_values(values@) == lookup_values(ixs[i as int], pv).take(k as int),
                        decreases cols@.len() - k,
                    {
                        let ghost name = cols@[k as int]@;
                        assert(first_where(pv, names_col(name)) is Some);
                        let v = Self::value_for(&pairs, cols[k].as_str());
                        let ghost before = values@;
                        proof {
                            lemma_first_where_found(pv, names_col(name));
                        }
                        let ghost j = first_where(pv, names_col(name)).unwrap();
                        match v {
                            Some(x) => {
                                values.push(x);
                                assert(values@ == before.push(x));
                                assert(*x == pv[j].1);
                            },
                            None => {},
                        }
                        proof {
                            assert(lookup_values(ixs[i as int], pv)[k as int] == pair_for(pv, name));
                            assert(deref_values(values@) =~= deref_values(before).push(pv[j].1));
                            assert(deref_values(values@) =~= lookup_values(ixs[i as int], pv).take(k as int + 1));
                        }
                        k = k + 1;
                    }
                    assert(lookup_values(ixs[i as int], pv).take(cols@.len() as int) =~= lookup_values(ixs[i as int], pv));
                    return Some((i, values));
                }
                i = i + 1;
            }
            assert(ixs.take(n as int) =~= ixs);
        }
        let (column, value): (&str, &'a Value) = match cond {
            Condition::Equals(col, val) => (col.as_str(), val),
            Condition::GreaterThan(col, val) => (col.as_str(), val),
            Condition::LessThan(col, val) => (col.as_str(), val),
            _ => return None,
        };
        let ghost pred = column_served(table, column@);
        let mut i: usize = 0;
        while i < n
            invariant
                n == ixs.len(),
                db.indexes.vals() == ixs,
                db.indexes.keys().len() == ixs.len(),
                indexes_have_columns(*db, table),
                single_target(*cond) == Some((column@, *value)),
                *filter == Some(*cond),
                i <= n,
                table == table_name@,
                pred == column_served(table, column@),
                first_where(ixs.take(i as int), pred) is None,
            decreases n - i,
        {
            let index = db.indexes.value_at(i);
            assert(ixs[i as int] == *index);
            let mut usable = false;
            if str_equal(index.table_name(), table_name) && !index.is_composite() {
                usable = str_equal(index.column_name(), column);
            }
            assert(usable == pred(ixs[i as int]));
            proof {
                lemma_first_where_step(ixs, pred, i as int);
                if usable {
                    lemma_first_where_prefix(ixs, pred, i as int + 1, n as int);
                    assert(ixs.take(n as int) =~= ixs);
                }
            }
            if usable {
                let mut values: Vec<&'a Value> = Vec::new();
                values.push(value);
                assert(deref_values(values@) =~= seq![*value]);
                return Some((i, values));
            }
            i = i + 1;
        }
        assert(ixs.take(n as int) =~= ixs);
        None
    }
}

impl QueryExecutor {
    /// The rendered results of the CASE expressions for `row`.
    fn case_results(cases: &Vec<&CaseExpression>, columns: &Vec<Column>, row: &Row) -> (r: Result<Vec<String>, DatabaseError>)
        requires
            fits(columns@, row.values@),
        ensures
            match case_cells(columns@, row.values@, deref_cases(cases@)) {
                Ok(cells) => r matches Ok(v) && string_views(v@) == cells,
                Err(o) => r matches Err(e) && failure_reported(e, o),
            },
    {
        let ghost cs = deref_cases(cases@);
        let mut out: Vec<String> = Vec::new();
        let mut i: usize = 0;
        assert(cs.take(0) =~= Seq::<CaseExpression>::empty());
        assert(string_views(out@) =~= Seq::<Seq<char>>::empty());
        while i < cases.len()
            invariant
                i <= cases@.len(),
                cs == deref_cases(cases@),
                fits(columns@, row.values@),
                case_cells(columns@, row.values@, cs.take(i as int)) == Ok::<Seq<Seq<char>>, Outcome>(string_views(out@)),
            decreases cases@.len() - i,
        {
            assert(cs.take(i as int + 1).drop_last() =~= cs.take(i as int));
            assert(cs.take(i as int + 1).last() == *cases@[i as int]);
            let ghost prev = string_views(out@);
            match Self::evaluate_case(cases[i], columns, row) {
                Ok(v) => {
                    proof {
                        let cv = case_value(columns@, row.values@, cases@[i as int].when_clauses@,
                            else_or_null(cases@[i as int].else_value));
                        if let Ok(w) = cv {
                            lemma_identical_renders(v, w);
                        }
                    }
                    let shown = v.to_display_string();
                    out.push(shown);
                    assert(string_views(out@) =~= prev.push(shown@));
                },
                Err(e) => {
                    proof {
                        lemma_case_cells_prefix(columns@, row.values@, cs, i as int + 1, cs.len() as int);
                        assert(cs.take(cs.len() as int) =~= cs);
                    }
                    return Err(e);
                },
            }
            i = i + 1;
        }
        assert(cs.take(cases@.len() as int) =~= cs);
        Ok(out)
    }

    /// Scans `cands` in order (see `scan`).
    fn scan_rows<'b>(columns: &Vec<Column>, cands: &Vec<&'b Row>, snapshot: &Snapshot, filter: &Option<Condition>,
        proj: &Vec<usize>, cases: &Vec<&CaseExpression>) -> (r: Result<(Vec<&'b Row>, Vec<Vec<String>>), DatabaseError>)
        requires
            forall|i: int| 0 <= i < cands@.len() ==> fits(columns@, (#[trigger] cands@[i]).values@),
            forall|i: int| 0 <= i < proj@.len() ==> (#[trigger] proj@[i]) < columns@.len(),
        ensures
            match scan(columns@, deref_rows(cands@), *snapshot, *filter, proj@, deref_cases(cases@)) {
                Scanned::Failed(o) => r matches Err(e) && failure_reported(e, o),
                Scanned::Rows(kept, cells) => r matches Ok(p) && deref_rows(p.0@) == kept && grid(p.1@) == cells
                    && p.0@.len() == p.1@.len()
                    && forall|k: int| 0 <= k < p.0@.len() ==> fits(columns@, (#[trigger] p.0@[k]).values@),
            },
    {
        let ghost all = deref_rows(cands@);
        let ghost cols = columns@;
        let ghost cs = deref_cases(cases@);
        let mut kept: Vec<&'b Row> = Vec::new();
        let mut out: Vec<Vec<String>> = Vec::new();
        let mut i: usize = 0;
        assert(all.take(0) =~= Seq::<Row>::empty());
        assert(deref_rows(kept@) =~= Seq::<Row>::empty());
        assert(grid(out@) =~= Seq::<Seq<Seq<char>>>::empty());
        while i < cands.len()
            invariant
                i <= cands@.len(),
                all == deref_rows(cands@),
                cols == columns@,
                cs == deref_cases(cases@),
                forall|k: int| 0 <= k < cands@.len() ==> fits(columns@, (#[trigger] cands@[k]).values@),
                forall|k: int| 0 <= k < proj@.len() ==> (#[trigger] proj@[k]) < columns@.len(),
                scan(cols, all.take(i as int), *snapshot, *filter, proj@, cs) == Scanned::Rows(deref_rows(kept@), grid(out@)),
                kept@.len() == out@.len(),
                forall|k: int| 0 <= k < kept@.len() ==> fits(columns@, (#[trigger] kept@[k]).values@),
            decreases cands@.len() - i,
        {
            let row = cands[i];
            assert(all.take(i as int + 1).drop_last() =~= all.take(i as int));
            assert(all.take(i as int + 1).last() == *row);
            let ghost prev_kept = deref_rows(kept@);
            let ghost prev_out = grid(out@);
            if row.is_visible_to_snapshot(snapshot) {
                let selected = match filter {
                    None => true,
                    Some(c) => {
                        proof {
                            lemma_fits_reads(cols, row.values@, *c);
                        }
                        match ConditionEvaluator::evaluate_with_columns(columns, row, c) {
                            Ok(b) => b,
                            Err(e) => {
                                proof {
                                    lemma_scan_prefix(cols, all, *snapshot, *filter, proj@, cs, i as int + 1, all.len() as int);
                                    assert(all.take(all.len() as int) =~= all);
                                }
                                return Err(e);
                            },
                        }
                    },
                };
                if selected {
                    match Self::case_results(cases, columns, row) {
                        Ok(extra) => {
                            let mut cells: Vec<String> = Vec::new();
                            let mut k: usize = 0;
                            while k < proj.len()
                                invariant
                                    k <= proj@.len(),
                                    forall|m: int| 0 <= m < proj@.len() ==> (#[trigger] proj@[m]) < columns@.len(),
                                    fits(columns@, row.values@),
                                    string_views(cells@) == row_cells(row.values@, proj@).take(k as int),
                                decreases proj@.len() - k,
                            {
                                let shown = row.values[proj[k]].to_display_string();
                                let ghost before = string_views(cells@);
                                cells.push(shown);
                                assert(string_views(cells@) =~= before.push(shown@));
                                assert(string_views(cells@) =~= row_cells(row.values@, proj@).take(k as int + 1));
                                k = k + 1;
                            }
                            let mut m: usize = 0;
                            let ghost base = string_views(cells@);
                            while m < extra.len()
                                invariant
                                    m <= extra@.len(),
                                    string_views(cells@) == base + string_views(extra@).take(m as int),
                                decreases extra@.len() - m,
                            {
                                let c = extra[m].clone();
                                let ghost before = string_views(cells@);
                                cells.push(c);
                                assert(string_views(cells@) =~= before.push(c@));
                                assert(string_views(cells@) =~= base + string_views(extra@).take(m as int + 1));
                                m = m + 1;
                            }
                            assert(row_cells(row.values@, proj@).take(proj@.len() as int) =~= row_cells(row.values@, proj@));
                            assert(string_views(extra@).take(extra@.len() as int) =~= string_views(extra@));
                            kept.push(row);
                            out.push(cells);
                            assert(deref_rows(kept@) =~= prev_kept.push(*row));
                            assert(grid(out@) =~= prev_out.push(row_cells(row.values@, proj@) + string_views(extra@)));
                        },
                        Err(e) => {
                            proof {
                                lemma_scan_prefix(cols, all, *snapshot, *filter, proj@, cs, i as int + 1, all.len() as int);
                                assert(all.take(all.len() as int) =~= all);
                            }
                            return Err(e);
                        },
                    }
                }
            }
            i = i + 1;
        }
        assert(all.take(cands@.len() as int) =~= all);
        Ok((kept, out))
    }
}

impl QueryExecutor {
    /// The positions `0..keys.len()` in the stable order of their keys.
    fn sort_positions(keys: &Vec<&Value>, dir: SortOrder) -> (r: Vec<usize>)
        ensures
            r@ == sorted_order(deref_values(keys@), value_after(dir), keys@.len() as nat),
    {
        let ghost ks = deref_values(keys@);
        let mut out: Vec<usize> = Vec::new();
        let mut x: usize = 0;
        while x < keys.len()
            invariant
                x <= keys@.len(),
                ks == deref_values(keys@),
                out@ == sorted_order(ks, value_after(dir), x as nat),
                forall|m: int| 0 <= m < out@.len() ==> (#[trigger] out@[m]) < x,
            decreases keys@.len() - x,
        {
            let mut j: usize = out.len();
            let mut moving = true;
            while moving
                invariant
                    x < keys@.len(),
                    ks == deref_values(keys@),
                    j <= out@.len(),
                    forall|m: int| 0 <= m < out@.len() ==> (#[trigger] out@[m]) < x,
                    forall|m: int| j <= m < out@.len() ==> goes_after(ks[#[trigger] out@[m] as int], ks[x as int], dir),
                    !moving ==> (j == 0 || !goes_after(ks[out@[j - 1] as int], ks[x as int], dir)),
                decreases j + if moving { 1int } else { 0int },
            {
                if j > 0 && Self::after(keys[out[j - 1]], keys[x], dir) {
                    j = j - 1;
                } else {
                    moving = false;
                }
            }
            proof {
                lemma_insert_stable_at(out@, x, ks, value_after(dir), j as int);
            }
            let ghost before = out@;
            out.insert(j, x);
            assert forall|m: int| 0 <= m < out@.len() implies (#[trigger] out@[m]) < x + 1 by {
                if m < j {
                    assert(out@[m] == before[m]);
                } else if m > j {
                    assert(out@[m] == before[m - 1]);
                }
            }
            x = x + 1;
        }
        out
    }
}

impl QueryExecutor {
    /// A copy of a rendered row.
    pub(crate) fn copy_row(v: &Vec<String>) -> (r: Vec<String>)
        ensures
            string_views(r@) == string_views(v@),
    {
        let mut out: Vec<String> = Vec::new();
        let mut i: usize = 0;
        while i < v.len()
            invariant
                i <= v@.len(),
                string_views(out@) == string_views(v@).take(i as int),
            decreases v@.len() - i,
        {
            let c = v[i].clone();
            let ghost before = string_views(out@);
            out.push(c);
            assert(string_views(out@) =~= before.push(c@));
            assert(string_views(out@) =~= string_views(v@).take(i as int + 1));
            i = i + 1;
        }
        assert(string_views(v@).take(v@.len() as int) =~= string_views(v@));
        out
    }

    /// Whether two rendered rows are equal.
    pub(crate) fn rows_equal(a: &Vec<String>, b: &Vec<String>) -> (r: bool)
        ensures
            r == (string_views(a@) == string_views(b@)),
    {
        if a.len() != b.len() {
            assert(string_views(a@).len() != string_views(b@).len());
            return false;
        }
        let mut i: usize = 0;
        while i < a.len()
            invariant
                a@.len() == b@.len(),
                i <= a@.len(),
                forall|k: int| 0 <= k < i ==> (#[trigger] a@[k])@ == b@[k]@,
            decreases a@.len() - i,
        {
            if !str_equal(a[i].as_str(), b[i].as_str()) {
                assert(string_views(a@)[i as int] != string_views(b@)[i as int]);
                return false;
            }
            i = i + 1;
        }
        assert(string_views(a@) =~= string_views(b@));
        true
    }

    /// The rendered rows with later repeats left out.
    pub(crate) fn distinct_rows(rows: &Vec<Vec<String>>) -> (r: Vec<Vec<String>>)
        ensures
            grid(r@) == first_occurrences(grid(rows@)),
    {
        let ghost g = grid(rows@);
        let mut out: Vec<Vec<String>> = Vec::new();
        let mut i: usize = 0;
        assert(g.take(0) =~= Seq::<Seq<Seq<char>>>::empty());
        assert(grid(out@) =~= Seq::<Seq<Seq<char>>>::empty());
        while i < rows.len()
            invariant
                i <= rows@.len(),
                g == grid(rows@),
                grid(out@) == first_occurrences(g.take(i as int)),
            decreases rows@.len() - i,
        {
            let ghost prefix = g.take(i as int);
            assert(g.take(i as int + 1).drop_last() =~= prefix);
            assert(g.take(i as int + 1).last() == string_views(rows@[i as int]@));
            let mut seen = false;
            let mut k: usize = 0;
            while k < out.len()
                invariant
                    k <= out@.len(),
                    !seen ==> forall|m: int| 0 <= m < k ==> grid(out@)[m] != string_views(rows@[i as int]@),
                    seen ==> grid(out@).contains(string_views(rows@[i as int]@)),
                    i < rows@.len(),
                decreases out@.len() - k,
            {
                if Self::rows_equal(&out[k], &rows[i]) {
                    assert(grid(out@)[k as int] == string_views(rows@[i as int]@));
                    seen = true;
                }
                k = k + 1;
            }
            proof {
                lemma_first_occurrences_contains(prefix, string_views(rows@[i as int]@));
            }
            if !seen {
                let copy = Self::copy_row(&rows[i]);
                let ghost before = grid(out@);
                out.push(copy);
                assert(grid(out@) =~= before.push(string_views(copy@)));
            }
            i = i + 1;
        }
        assert(g.take(rows@.len() as int) =~= g);
        out
    }

    /// The rendered rows left after skipping `offset` and keeping at most `limit`.
    fn window_rows(rows: &Vec<Vec<String>>, offset: Option<usize>, limit: Option<usize>) -> (r: Vec<Vec<String>>)
        ensures
            grid(r@) == windowed(grid(rows@), offset, limit),
    {
        let ghost g = grid(rows@);
        let start: usize = match offset {
            Some(o) => if o < rows.len() { o } else { rows.len() },
            None => 0,
        };
        let ghost a = match offset {
            Some(o) => if (o as int) < g.len() { g.skip(o as int) } else { Seq::empty() },
            None => g,
        };
        assert(a =~= g.subrange(start as int, g.len() as int));
        let end: usize = match limit {
            Some(l) => if l < rows.len() - start { start + l } else { rows.len() },
            None => rows.len(),
        };
        let mut out: Vec<Vec<String>> = Vec::new();
        let mut i: usize = start;
        while i < end
            invariant
                start <= i <= end <= rows@.len(),
                g == grid(rows@),
                grid(out@) == g.subrange(start as int, i as int),
            decreases end - i,
        {
            let copy = Self::copy_row(&rows[i]);
            let ghost before = grid(out@);
            out.push(copy);
            assert(grid(out@) =~= before.push(string_views(copy@)));
            assert(grid(out@) =~= g.subrange(start as int, i as int + 1));
            i = i + 1;
        }
        assert(windowed(g, offset, limit) =~= g.subrange(start as int, end as int));
        out
    }
}

impl QueryExecutor {
    /// The row versions a SELECT on `table_name` examines (see `candidates`).
    fn gather<'b>(db: &'b Database, table_name: &str, table: &'b Table, filter: &Option<Condition>) -> (r: Vec<&'b Row>)
        requires
            db.wf(),
            indexes_have_columns(*db, table_name@),
            indexes_wf(*db),
            db.tables@.contains_key(table_name@),
            *table == db.tables@[table_name@],
            rows_fit(*table),
        ensures
            deref_rows(r@) == candidates(*db, table_name@, *filter),
            forall|i: int| 0 <= i < r@.len() ==> fits(table.columns@, (#[trigger] r@[i]).values@),
    {
        let ghost rows = table.rows@;
        let mut out: Vec<&'b Row> = Vec::new();
        match Self::find_usable_index(db, table_name, filter) {
            None => {
                let mut i: usize = 0;
                while i < table.rows.len()
                    invariant
                        i <= rows.len(),
                        rows == table.rows@,
                        rows_fit(*table),
                        deref_rows(out@) == rows.take(i as int),
                        forall|k: int| 0 <= k < out@.len() ==> fits(table.columns@, (#[trigger] out@[k]).values@),
                    decreases rows.len() - i,
                {
                    let ghost before = out@;
                    out.push(&table.rows[i]);
                    assert(deref_rows(out@) =~= deref_rows(before).push(rows[i as int]));
                    assert(deref_rows(out@) =~= rows.take(i as int + 1));
                    i = i + 1;
                }
                assert(rows.take(rows.len() as int) =~= rows);
            },
            Some((k, vals)) => {
                proof {
                    db.indexes.lemma_lengths();
                    lemma_usable_index_in_range(*db, table_name@, *filter);
                }
                let index = db.indexes.value_at(k);
                assert(*index == db.indexes.vals()[k as int]);
                assert(index.wf());
                let ghost vs = deref_values(vals@);
                let positions: Vec<usize> = if index.is_composite() && vals.len() > 1 {
                    let mut owned: Vec<Value> = Vec::new();
                    let mut m: usize = 0;
                    while m < vals.len()
                        invariant
                            m <= vals@.len(),
                            vs == deref_values(vals@),
                            owned@.len() == m,
                            forall|q: int| 0 <= q < m ==> identical(#[trigger] owned@[q], vs[q]),
                        decreases vals@.len() - m,
                    {
                        owned.push(vals[m].duplicate());
                        m = m + 1;
                    }
                    proof {
                        lemma_identical_keys(owned@, vs);
                    }
                    index.search_composite(owned.as_slice())
                } else {
                    proof {
                        assert(vs[0] == *vals@[0]);
                    }
                    index.search(vals[0])
                };
                assert(positions@ == lookup_positions(*index, vs));
                let ghost ps = positions@;
                let mut j: usize = 0;
                while j < positions.len()
                    invariant
                        j <= ps.len(),
                        ps == positions@,
                        rows == table.rows@,
                        rows_fit(*table),
                        deref_rows(out@) == rows_at(rows, ps.take(j as int)),
                        forall|q: int| 0 <= q < out@.len() ==> fits(table.columns@, (#[trigger] out@[q]).values@),
                    decreases ps.len() - j,
                {
                    assert(ps.take(j as int + 1).drop_last() =~= ps.take(j as int));
                    assert(ps.take(j as int + 1).last() == ps[j as int]);
                    let p = positions[j];
                    if p < table.rows.len() {
                        let ghost before = out@;
                        out.push(&table.rows[p]);
                        assert(deref_rows(out@) =~= deref_rows(before).push(rows[p as int]));
                    }
                    j = j + 1;
                }
                assert(ps.take(ps.len() as int) =~= ps);
            },
        }
        out
    }
}

impl QueryExecutor {
    /// The plain column names and the CASE expressions of a SELECT list.
    fn split_columns(columns: &Vec<SelectColumn>) -> (r: (Vec<&String>, Vec<&CaseExpression>))
        ensures
            r.0@.map_values(|n: &String| n@) == regular_names(columns@),
            deref_cases(r.1@) == case_list(columns@),
    {
        let ghost sel = columns@;
        let mut names: Vec<&String> = Vec::new();
        let mut cases: Vec<&CaseExpression> = Vec::new();
        let mut i: usize = 0;
        while i < columns.len()
            invariant
                i <= sel.len(),
                sel == columns@,
                names@.map_values(|n: &String| n@) == regular_names(sel.take(i as int)),
                deref_cases(cases@) == case_list(sel.take(i as int)),
            decreases sel.len() - i,
        {
            assert(sel.take(i as int + 1).drop_last() =~= sel.take(i as int));
            assert(sel.take(i as int + 1).last() == sel[i as int]);
            let ghost before_names = names@;
            let ghost before_cases = cases@;
            match &columns[i] {
                SelectColumn::Regular(name) => {
                    names.push(name);
                    assert(names@.map_values(|n: &String| n@) =~= before_names.map_values(|n: &String| n@).push(name@));
                },
                SelectColumn::Case(c) => {
                    cases.push(c);
                    assert(deref_cases(cases@) =~= deref_cases(before_cases).push(*c));
                },
                SelectColumn::Aggregate(_) => {},
            }
            i = i + 1;
        }
        assert(sel.take(sel.len() as int) =~= sel);
        (names, cases)
    }

    /// The column positions a SELECT list shows (see `projection`).
    fn project(table: &Table, sel: Ghost<Seq<SelectColumn>>, names: &Vec<&String>, cases: &Vec<&CaseExpression>)
        -> (r: Result<Vec<usize>, DatabaseError>)
        requires
            names@.map_values(|n: &String| n@) == regular_names(sel@),
            deref_cases(cases@) == case_list(sel@),
        ensures
            match projection(table.columns@, sel@) {
                Err(n) => r matches Err(DatabaseError::ParseError(m)) && m@ == unknown_column_message(n),
                Ok(p) => r matches Ok(v) && v@ == p,
            },
            r matches Ok(v) ==> forall|q: int| 0 <= q < v@.len() ==> (#[trigger] v@[q]) < table.columns@.len(),
    {
        let ghost cols = table.columns@;
        let ghost rn = regular_names(sel@);
        proof {
            lemma_positions_in_range(cols, sel@);
        }
        let mut proj: Vec<usize> = Vec::new();
        let select_all = names.len() == 1 && str_equal(names[0].as_str(), "*") && cases.len() == 0;
        if select_all {
            assert(rn[0] == names@[0]@);
            let mut k: usize = 0;
            while k < table.columns.len()
                invariant
                    k <= cols.len(),
                    cols == table.columns@,
                    proj@ == Seq::new(k as nat, |q: int| q as usize),
                decreases cols.len() - k,
            {
                proj.push(k);
                assert(proj@ =~= Seq::new(k as nat + 1, |q: int| q as usize));
                k = k + 1;
            }
            return Ok(proj);
        }
        assert(projection(cols, sel@) == positions_of(cols, rn)) by {
            if rn.len() == 1 && rn[0] == "*"@ && case_list(sel@).len() == 0 {
                assert(names@[0]@ == rn[0]);
                assert(deref_cases(cases@).len() == cases@.len());
            }
        }
        let mut k: usize = 0;
        assert(rn.take(0) =~= Seq::<Seq<char>>::empty());
        while k < names.len()
            invariant
                k <= names@.len(),
                cols == table.columns@,
                names@.map_values(|n: &String| n@) == rn,
                rn == regular_names(sel@),
                projection(cols, sel@) == positions_of(cols, rn),
                positions_of(cols, rn.take(k as int)) == Ok::<Seq<usize>, Seq<char>>(proj@),
            decreases names@.len() - k,
        {
            assert(rn.take(k as int + 1).drop_last() =~= rn.take(k as int));
            assert(rn.take(k as int + 1).last() == names@[k as int]@);
            match table.get_column_index(names[k].as_str()) {
                Some(ci) => {
                    proj.push(ci);
                },
                None => {
                    proof {
                        lemma_positions_prefix(cols, rn, k as int + 1, rn.len() as int);
                        assert(rn.take(rn.len() as int) =~= rn);
                    }
                    return Err(unknown_column(names[k].as_str()));
                },
            }
            k = k + 1;
        }
        assert(rn.take(rn.len() as int) =~= rn);
        proof {
            lemma_positions_of_in_range(cols, rn);
            assert(positions_of(cols, rn) == Ok::<Seq<usize>, Seq<char>>(proj@));
            let pp = positions_of(cols, rn)->Ok_0;
            assert(pp == proj@);
            assert(forall|q: int| 0 <= q < pp.len() ==> (#[trigger] pp[q]) < cols.len());
        }
        Ok(proj)
    }

    /// The headings of a result (see `result_names`).
    fn headings(table: &Table, proj: &Vec<usize>, cases: &Vec<&CaseExpression>) -> (r: Vec<String>)
        requires
            forall|q: int| 0 <= q < proj@.len() ==> (#[trigger] proj@[q]) < table.columns@.len(),
        ensures
            string_views(r@) == result_names(table.columns@, proj@, deref_cases(cases@)),
    {
        let ghost cols = table.columns@;
        let mut headings: Vec<String> = Vec::new();
        let mut k: usize = 0;
        while k < proj.len()
            invariant
                k <= proj@.len(),
                cols == table.columns@,
                forall|q: int| 0 <= q < proj@.len() ==> (#[trigger] proj@[q]) < cols.len(),
                string_views(headings@) == proj@.map_values(|q: usize| cols[q as int].name@).take(k as int),
            decreases proj@.len() - k,
        {
            let name = table.columns[proj[k]].name.clone();
            let ghost before = string_views(headings@);
            headings.push(name);
            assert(string_views(headings@) =~= before.push(name@));
            assert(string_views(headings@) =~= proj@.map_values(|q: usize| cols[q as int].name@).take(k as int + 1));
            k = k + 1;
        }
        assert(proj@.map_values(|q: usize| cols[q as int].name@).take(proj@.len() as int)
            =~= proj@.map_values(|q: usize| cols[q as int].name@));
        let ghost base = string_views(headings@);
        let ghost cl = deref_cases(cases@);
        let mut k: usize = 0;
        while k < cases.len()
            invariant
                k <= cases@.len(),
                cl == deref_cases(cases@),
                string_views(headings@) == base + cl.map_values(|c: CaseExpression| alias_name(c)).take(k as int),
            decreases cases@.len() - k,
        {
            let heading = match &cases[k].alias {
                Some(a) => a.clone(),
                None => "case".to_owned(),
            };
            let ghost before = string_views(headings@);
            headings.push(heading);
            assert(string_views(headings@) =~= before.push(heading@));
            assert(string_views(headings@) =~= base + cl.map_values(|c: CaseExpression| alias_name(c)).take(k as int + 1));
            k = k + 1;
        }
        assert(cl.map_values(|c: CaseExpression| alias_name(c)).take(cl.len() as int) =~= cl.map_values(|c: CaseExpression| alias_name(c)));
        headings
    }

    /// The rendered rows in the stable order of the kept rows' values in column `idx`.
    fn order_rows(kept: &Vec<&Row>, out: &Vec<Vec<String>>, idx: usize, dir: SortOrder) -> (r: Vec<Vec<String>>)
        requires
            kept@.len() == out@.len(),
            forall|m: int| 0 <= m < kept@.len() ==> idx < (#[trigger] kept@[m]).values@.len(),
        ensures
            grid(r@) == ordered(deref_rows(kept@), grid(out@), idx as int, dir),
    {
        let ghost ks = deref_rows(kept@).map_values(|r: Row| r.values@[idx as int]);
        let mut keys: Vec<&Value> = Vec::new();
        let mut q: usize = 0;
        while q < kept.len()
            invariant
                q <= kept@.len(),
                forall|m: int| 0 <= m < kept@.len() ==> idx < (#[trigger] kept@[m]).values@.len(),
                ks == deref_rows(kept@).map_values(|r: Row| r.values@[idx as int]),
                deref_values(keys@) == ks.take(q as int),
            decreases kept@.len() - q,
        {
            let ghost before = keys@;
            keys.push(&kept[q].values[idx]);
            assert(deref_values(keys@) =~= deref_values(before).push(kept@[q as int].values@[idx as int]));
            assert(deref_values(keys@) =~= ks.take(q as int + 1));
            q = q + 1;
        }
        assert(ks.take(kept@.len() as int) =~= ks);
        let order = Self::sort_positions(&keys, dir);
        proof {
            lemma_sorted_order_in_range(ks, value_after(dir), ks.len());
        }
        let ghost g = grid(out@);
        let mut sorted: Vec<Vec<String>> = Vec::new();
        let mut q: usize = 0;
        while q < order.len()
            invariant
                q <= order@.len(),
                out@.len() == kept@.len(),
                ks.len() == kept@.len(),
                g == grid(out@),
                order@ == sorted_order(ks, value_after(dir), ks.len()),
                forall|m: int| 0 <= m < order@.len() ==> (#[trigger] order@[m]) < ks.len(),
                grid(sorted@) == order@.map_values(|p: usize| g[p as int]).take(q as int),
            decreases order@.len() - q,
        {
            let copy = Self::copy_row(&out[order[q]]);
            let ghost before = grid(sorted@);
            sorted.push(copy);
            assert(grid(sorted@) =~= before.push(string_views(copy@)));
            assert(grid(sorted@) =~= order@.map_values(|p: usize| g[p as int]).take(q as int + 1));
            q = q + 1;
        }
        assert(order@.map_values(|p: usize| g[p as int]).take(order@.len() as int) =~= order@.map_values(|p: usize| g[p as int]));
        sorted
    }

    /// SELECT without aggregates, grouping or joins (see `regular_select`):
    /// rows visible in `snapshot`, read through an index when one serves the
    /// filter.
    pub fn select_regular(db: &Database, distinct: bool, columns: Vec<SelectColumn>, from: String, filter: Option<Condition>,
        order_by: Option<(String, SortOrder)>, limit: Option<usize>, offset: Option<usize>, snapshot: &Snapshot)
        -> (r: Result<QueryResult, DatabaseError>)
        requires
            db.wf(),
            indexes_have_columns(*db, from@),
            indexes_wf(*db),
            forall|i: int| 0 <= i < columns@.len() ==> !((#[trigger] columns@[i]) is Aggregate),
            db.tables@.contains_key(from@) ==> rows_fit(db.tables@[from@]),
        ensures
            regular_select(*db, distinct, columns@, from@, filter, order_by, limit, offset, *snapshot, r),
    {
        let table = match db.get_table(from.as_str()) {
            Some(t) => t,
            None => return Err(DatabaseError::TableNotFound(from)),
        };
        let (names, cases) = Self::split_columns(&columns);
        let proj = match Self::project(table, Ghost(columns@), &names, &cases) {
            Ok(p) => p,
            Err(e) => return Err(e),
        };
        let headings = Self::headings(table, &proj, &cases);
        let cands = Self::gather(db, from.as_str(), table, &filter);
        let (kept, out) = match Self::scan_rows(&table.columns, &cands, snapshot, &filter, &proj, &cases) {
            Ok(p) => p,
            Err(e) => return Err(e),
        };
        let rows: Vec<Vec<String>> = match &order_by {
            None => out,
            Some((sort_column, dir)) => {
                let idx = match table.get_column_index(sort_column.as_str()) {
                    Some(ci) => ci,
                    None => return Err(unknown_column(sort_column.as_str())),
                };
                Self::order_rows(&kept, &out, idx, *dir)
            },
        };
        let rows = if distinct { Self::distinct_rows(&rows) } else { rows };
        let result = Self::window_rows(&rows, offset, limit);
        Ok(QueryResult::Rows(result, headings))
    }
}

impl QueryExecutor {
    /// `a` strictly before `b` for MIN and MAX.
    fn less_for_extreme(a: &Value, b: &Value) -> (r: bool)
        ensures
            r == strictly_less(*a, *b),
    {
        match (a, b) {
            (Value::Integer(x), Value::Integer(y)) => *x < *y,
            (Value::Real(x), Value::Real(y)) => real_less(x.bits, y.bits),
            (Value::Text(x), Value::Text(y)) => {
                let xs = chars_of(x.as_str());
                let ys = chars_of(y.as_str());
                chars_lt(&xs, &ys)
            },
            _ => false,
        }
    }

    /// How many rows hold a value other than NULL in column `idx`.
    fn count_non_null(rows: &Vec<&Row>, idx: usize) -> (n: usize)
        requires
            forall|m: int| 0 <= m < rows@.len() ==> idx < (#[trigger] rows@[m]).values@.len(),
        ensures
            n == non_null_count(column_values(deref_rows(rows@), idx as int)),
    {
        let ghost vs = column_values(deref_rows(rows@), idx as int);
        let mut n: usize = 0;
        let mut i: usize = 0;
        while i < rows.len()
            invariant
                i <= rows@.len(),
                vs == column_values(deref_rows(rows@), idx as int),
                vs.len() == rows@.len(),
                forall|m: int| 0 <= m < rows@.len() ==> idx < (#[trigger] rows@[m]).values@.len(),
                n == non_null_count(vs.take(i as int)),
                n <= i,
            decreases rows@.len() - i,
        {
            assert(vs.take(i as int + 1).drop_last() =~= vs.take(i as int));
            assert(vs[i as int] == rows@[i as int].values@[idx as int]);
            let is_null = match &rows[i].values[idx] {
                Value::Null => true,
                _ => false,
            };
            if !is_null {
                n = n + 1;
            }
            i = i + 1;
        }
        assert(vs.take(rows@.len() as int) =~= vs);
        n
    }

    /// SUM over column `idx`.
    fn sum_column(rows: &Vec<&Row>, idx: usize) -> (r: Result<AggregateValue, DatabaseError>)
        requires
            forall|m: int| 0 <= m < rows@.len() ==> idx < (#[trigger] rows@[m]).values@.len(),
            sum_fits(column_values(deref_rows(rows@), idx as int)),
        ensures
            ({
                let vs = column_values(deref_rows(rows@), idx as int);
                if !all_numbers(vs) {
                    r == Err::<AggregateValue, DatabaseError>(DatabaseError::TypeMismatch)
                } else if reals_of(vs).len() > 0 {
                    r matches Ok(a) && shows(a, AggregateView::RealSum(reals_of(vs)))
                } else if has_integer(vs) {
                    r matches Ok(a) && shows(a, AggregateView::Text(signed_decimal(int_sum(vs))))
                } else {
                    r matches Ok(a) && shows(a, AggregateView::Text("0"@))
                }
            }),
    {
        let ghost vs = column_values(deref_rows(rows@), idx as int);
        let mut sum_int: Option<i64> = None;
        let mut reals: Vec<Value> = Vec::new();
        let mut i: usize = 0;
        assert(vs.take(0) =~= Seq::<Value>::empty());
        while i < rows.len()
            invariant
                i <= rows@.len(),
                vs == column_values(deref_rows(rows@), idx as int),
                vs.len() == rows@.len(),
                forall|m: int| 0 <= m < rows@.len() ==> idx < (#[trigger] rows@[m]).values@.len(),
                sum_fits(vs),
                all_numbers(vs.take(i as int)),
                sum_int is Some <==> has_integer(vs.take(i as int)),
                sum_int matches Some(x) ==> x == int_sum(vs.take(i as int)),
                !has_integer(vs.take(i as int)) ==> int_sum(vs.take(i as int)) == 0,
                same_values(reals@, reals_of(vs.take(i as int))),
            decreases rows@.len() - i,
        {
            proof {
                lemma_values_step(vs, i as int);
                lemma_sum_fits_prefix(vs, i as int + 1);
            }
            assert(vs[i as int] == rows@[i as int].values@[idx as int]);
            let ghost before = reals@;
            match &rows[i].values[idx] {
                Value::Integer(x) => {
                    let base: i64 = match sum_int {
                        Some(s) => s,
                        None => 0,
                    };
                    sum_int = Some(base + *x);
                },
                Value::Real(_) => {
                    reals.push(rows[i].values[idx].duplicate());
                    assert(reals_of(vs.take(i as int + 1)) =~= reals_of(vs.take(i as int)).push(vs[i as int]));
                },
                Value::Null => {},
                _ => {
                    proof {
                        assert(!is_number(vs[i as int]));
                    }
                    proof {
                        assert(vs.take(i as int + 1)[i as int] == vs[i as int]);
                        assert(!all_numbers(vs)) by {
                            assert(!is_number(vs[i as int]));
                        }
                    }
                    return Err(DatabaseError::TypeMismatch);
                },
            }
            assert(same_values(reals@, reals_of(vs.take(i as int + 1))));
            i = i + 1;
        }
        assert(vs.take(rows@.len() as int) =~= vs);
        if reals.len() > 0 {
            Ok(AggregateValue::RealSum(reals))
        } else {
            match sum_int {
                Some(x) => Ok(AggregateValue::Text(fmt_i128(x as i128))),
                None => Ok(AggregateValue::Text("0".to_owned())),
            }
        }
    }
}

impl QueryExecutor {
    /// AVG over column `idx`: the numbers to average, or "0" when there are none.
    fn avg_column(rows: &Vec<&Row>, idx: usize) -> (r: Result<AggregateValue, DatabaseError>)
        requires
            forall|m: int| 0 <= m < rows@.len() ==> idx < (#[trigger] rows@[m]).values@.len(),
        ensures
            ({
                let vs = column_values(deref_rows(rows@), idx as int);
                if !all_numbers(vs) {
                    r == Err::<AggregateValue, DatabaseError>(DatabaseError::TypeMismatch)
                } else if numbers_of(vs).len() == 0 {
                    r matches Ok(a) && shows(a, AggregateView::Text("0"@))
                } else {
                    r matches Ok(a) && shows(a, AggregateView::Mean(numbers_of(vs)))
                }
            }),
    {
        let ghost vs = column_values(deref_rows(rows@), idx as int);
        let mut nums: Vec<Value> = Vec::new();
        let mut i: usize = 0;
        assert(vs.take(0) =~= Seq::<Value>::empty());
        while i < rows.len()
            invariant
                i <= rows@.len(),
                vs == column_values(deref_rows(rows@), idx as int),
                vs.len() == rows@.len(),
                forall|m: int| 0 <= m < rows@.len() ==> idx < (#[trigger] rows@[m]).values@.len(),
                all_numbers(vs.take(i as int)),
                same_values(nums@, numbers_of(vs.take(i as int))),
            decreases rows@.len() - i,
        {
            proof {
                lemma_values_step(vs, i as int);
            }
            assert(vs[i as int] == rows@[i as int].values@[idx as int]);
            match &rows[i].values[idx] {
                Value::Integer(_) | Value::Real(_) => {
                    nums.push(rows[i].values[idx].duplicate());
                    assert(numbers_of(vs.take(i as int + 1)) =~= numbers_of(vs.take(i as int)).push(vs[i as int]));
                },
                Value::Null => {},
                _ => {
                    proof {
                        assert(!all_numbers(vs)) by {
                            assert(!is_number(vs[i as int]));
                        }
                    }
                    return Err(DatabaseError::TypeMismatch);
                },
            }
            assert(same_values(nums@, numbers_of(vs.take(i as int + 1))));
            i = i + 1;
        }
        assert(vs.take(rows@.len() as int) =~= vs);
        if nums.len() == 0 {
            Ok(AggregateValue::Text("0".to_owned()))
        } else {
            Ok(AggregateValue::Mean(nums))
        }
    }

    /// MIN (or, with `max`, MAX) over column `idx`, rendered.
    fn extreme_column(rows: &Vec<&Row>, idx: usize, max: bool) -> (r: String)
        requires
            forall|m: int| 0 <= m < rows@.len() ==> idx < (#[trigger] rows@[m]).values@.len(),
        ensures
            r@ == extreme_text(extreme(column_values(deref_rows(rows@), idx as int), max)),
    {
        let ghost vs = column_values(deref_rows(rows@), idx as int);
        let mut best: Option<&Value> = None;
        let mut i: usize = 0;
        assert(vs.take(0) =~= Seq::<Value>::empty());
        while i < rows.len()
            invariant
                i <= rows@.len(),
                vs == column_values(deref_rows(rows@), idx as int),
                vs.len() == rows@.len(),
                forall|m: int| 0 <= m < rows@.len() ==> idx < (#[trigger] rows@[m]).values@.len(),
                match best {
                    None => extreme(vs.take(i as int), max) is None,
                    Some(b) => extreme(vs.take(i as int), max) == Some(*b),
                },
            decreases rows@.len() - i,
        {
            assert(vs.take(i as int + 1).drop_last() =~= vs.take(i as int));
            assert(vs[i as int] == rows@[i as int].values@[idx as int]);
            let val = &rows[i].values[idx];
            let is_null = match val {
                Value::Null => true,
                _ => false,
            };
            if !is_null {
                match best {
                    None => {
                        best = Some(val);
                    },
                    Some(cur) => {
                        let beyond = if max { Self::less_for_extreme(cur, val) } else { Self::less_for_extreme(val, cur) };
                        if beyond {
                            best = Some(val);
                        }
                    },
                }
            }
            i = i + 1;
        }
        assert(vs.take(rows@.len() as int) =~= vs);
        match best {
            Some(v) => v.to_display_string(),
            None => "NULL".to_owned(),
        }
    }

    /// The heading `opening` + `col` + ")".
    fn heading_of(opening: &str, col: &str) -> (r: String)
        ensures
            r@ == opening@ + col@ + ")"@,
    {
        let mut out: Vec<char> = Vec::new();
        push_str(&mut out, opening);
        push_str(&mut out, col);
        push_str(&mut out, ")");
        string_of(&out)
    }

    /// An aggregate over `rows`, with its heading (see `aggregate_of`).
    pub fn compute_aggregate(agg_func: &AggregateFunction, table: &Table, rows: &Vec<&Row>)
        -> (r: Result<(AggregateValue, String), DatabaseError>)
        requires
            forall|m: int| 0 <= m < rows@.len() ==> fits(table.columns@, (#[trigger] rows@[m]).values@),
            aggregate_fits(table.columns@, deref_rows(rows@), *agg_func),
        ensures
            match aggregate_of(table.columns@, deref_rows(rows@), *agg_func) {
                Ok((v, name)) => r matches Ok(p) && shows(p.0, v) && p.1@ == name,
                Err(o) => r matches Err(e) && failure_reported(e, o),
            },
    {
        let ghost cols = table.columns@;
        let ghost rs = deref_rows(rows@);
        let col: &String = match agg_func {
            AggregateFunction::Count(CountTarget::All) => {
                return Ok((AggregateValue::Text(fmt_usize(rows.len())), "count".to_owned()));
            },
            AggregateFunction::Count(CountTarget::Column(c)) => c,
            AggregateFunction::Sum(c) => c,
            AggregateFunction::Avg(c) => c,
            AggregateFunction::Min(c) => c,
            AggregateFunction::Max(c) => c,
        };
        let idx = match table.get_column_index(col.as_str()) {
            Some(i) => i,
            None => return Err(unknown_column(col.as_str())),
        };
        assert forall|m: int| 0 <= m < rows@.len() implies idx < (#[trigger] rows@[m]).values@.len() by {
            assert(fits(cols, rows@[m].values@));
        }
        match agg_func {
            AggregateFunction::Count(_) => Ok((AggregateValue::Text(fmt_usize(Self::count_non_null(rows, idx))), "count".to_owned())),
            AggregateFunction::Sum(c) => match Self::sum_column(rows, idx) {
                Ok(v) => Ok((v, Self::heading_of("sum(", c.as_str()))),
                Err(e) => Err(e),
            },
            AggregateFunction::Avg(c) => match Self::avg_column(rows, idx) {
                Ok(v) => Ok((v, Self::heading_of("avg(", c.as_str()))),
                Err(e) => Err(e),
            },
            AggregateFunction::Min(c) => Ok((AggregateValue::Text(Self::extreme_column(rows, idx, false)), Self::heading_of("min(", c.as_str()))),
            AggregateFunction::Max(c) => Ok((AggregateValue::Text(Self::extreme_column(rows, idx, true)), Self::heading_of("max(", c.as_str()))),
        }
    }
}

impl QueryExecutor {
    /// The row versions of `table` visible in the snapshot that the filter selects.
    fn select_rows<'b>(table: &'b Table, snapshot: &Snapshot, filter: &Option<Condition>) -> (r: Vec<&'b Row>)
        requires
            rows_fit(*table),
        ensures
            deref_rows(r@) == selected_rows(table.columns@, table.rows@, *snapshot, *filter),
            forall|m: int| 0 <= m < r@.len() ==> fits(table.columns@, (#[trigger] r@[m]).values@),
    {
        let ghost rows = table.rows@;
        let ghost cols = table.columns@;
        let mut out: Vec<&'b Row> = Vec::new();
        let mut i: usize = 0;
        assert(rows.take(0) =~= Seq::<Row>::empty());
        while i < table.rows.len()
            invariant
                i <= rows.len(),
                rows == table.rows@,
                cols == table.columns@,
                rows_fit(*table),
                deref_rows(out@) == selected_rows(cols, rows.take(i as int), *snapshot, *filter),
                forall|m: int| 0 <= m < out@.len() ==> fits(cols, (#[trigger] out@[m]).values@),
            decreases rows.len() - i,
        {
            assert(rows.take(i as int + 1).drop_last() =~= rows.take(i as int));
            assert(rows.take(i as int + 1).last() == rows[i as int]);
            let row = &table.rows[i];
            assert(fits(cols, row.values@));
            let mut keep = row.is_visible_to_snapshot(snapshot);
            if keep {
                match filter {
                    None => {},
                    Some(c) => {
                        proof {
                            lemma_fits_reads(cols, row.values@, *c);
                        }
                        keep = match ConditionEvaluator::evaluate_with_columns(&table.columns, row, c) {
                            Ok(b) => b,
                            Err(_) => false,
                        };
                    },
                }
            }
            if keep {
                let ghost before = out@;
                out.push(row);
                assert(deref_rows(out@) =~= deref_rows(before).push(*row));
            }
            i = i + 1;
        }
        assert(rows.take(rows.len() as int) =~= rows);
        out
    }

    /// SELECT of aggregates without GROUP BY: one result row over the row
    /// versions visible in `snapshot` that the filter selects. The values are
    /// given as computed (see `AggregateValue`), with the headings.
    pub fn select_aggregate(db: &Database, distinct: bool, columns: Vec<SelectColumn>, from: String, filter: Option<Condition>,
        snapshot: &Snapshot) -> (r: Result<(Vec<AggregateValue>, Vec<String>), DatabaseError>)
        requires
            db.wf(),
            db.tables@.contains_key(from@) ==> {
                let t = db.tables@[from@];
                &&& rows_fit(t)
                &&& aggregates_fit(t.columns@, selected_rows(t.columns@, t.rows@, *snapshot, filter), columns@)
            },
        ensures
            !db.tables@.contains_key(from@) ==> (r matches Err(DatabaseError::TableNotFound(n)) && n@ == from@),
            db.tables@.contains_key(from@) ==> {
                let t = db.tables@[from@];
                match aggregate_list(t.columns@, selected_rows(t.columns@, t.rows@, *snapshot, filter), columns@) {
                    Err(f) => r matches Err(e) && failure_is(e, f),
                    Ok((vals, names)) => r matches Ok(p) && p.0@.len() == vals.len()
                        && (forall|i: int| 0 <= i < vals.len() ==> shows(#[trigger] p.0@[i], vals[i]))
                        && string_views(p.1@) == names,
                }
            },
    {
        let table = match db.get_table(from.as_str()) {
            Some(t) => t,
            None => return Err(DatabaseError::TableNotFound(from)),
        };
        let ghost cols = table.columns@;
        let rows = Self::select_rows(table, snapshot, &filter);
        let ghost rs = deref_rows(rows@);
        let ghost sel = columns@;
        let mut values: Vec<AggregateValue> = Vec::new();
        let mut names: Vec<String> = Vec::new();
        let mut i: usize = 0;
        assert(sel.take(0) =~= Seq::<SelectColumn>::empty());
        assert(string_views(names@) =~= Seq::<Seq<char>>::empty());
        while i < columns.len()
            invariant
                i <= sel.len(),
                sel == columns@,
                cols == table.columns@,
                rs == deref_rows(rows@),
                db.tables@.contains_key(from@),
                *table == db.tables@[from@],
                rs == selected_rows(cols, table.rows@, *snapshot, filter),
                forall|m: int| 0 <= m < rows@.len() ==> fits(cols, (#[trigger] rows@[m]).values@),
                aggregates_fit(cols, rs, sel),
                aggregate_list(cols, rs, sel.take(i as int)) matches Ok((vals, ns))
                    && values@.len() == vals.len()
                    && (forall|k: int| 0 <= k < vals.len() ==> shows(#[trigger] values@[k], vals[k]))
                    && string_views(names@) == ns,
            decreases sel.len() - i,
        {
            assert(sel.take(i as int + 1).drop_last() =~= sel.take(i as int));
            assert(sel.take(i as int + 1).last() == sel[i as int]);
            match &columns[i] {
                SelectColumn::Aggregate(f) => {
                    assert(aggregate_fits(cols, rs, *f));
                    match Self::compute_aggregate(f, table, &rows) {
                        Ok((v, n)) => {
                            let ghost before_values = values@;
                            let ghost before_names = string_views(names@);
                            values.push(v);
                            names.push(n);
                            assert(string_views(names@) =~= before_names.push(n@));
                            proof {
                                let prev = aggregate_list(cols, rs, sel.take(i as int))->Ok_0;
                                let now = aggregate_list(cols, rs, sel.take(i as int + 1))->Ok_0;
                                assert forall|k: int| 0 <= k < now.0.len() implies shows(#[trigger] values@[k], now.0[k]) by {
                                    if k < prev.0.len() {
                                        assert(values@[k] == before_values[k]);
                                    }
                                }
                            }
                        },
                        Err(e) => {
                            proof {
                                lemma_aggregate_list_prefix(cols, rs, sel, i as int + 1, sel.len() as int);
                                assert(sel.take(sel.len() as int) =~= sel);
                            }
                            return Err(e);
                        },
                    }
                },
                SelectColumn::Regular(_) => {
                    proof {
                        lemma_aggregate_list_prefix(cols, rs, sel, i as int + 1, sel.len() as int);
                        assert(sel.take(sel.len() as int) =~= sel);
                    }
                    return Err(DatabaseError::ParseError("Cannot mix aggregates with regular columns without GROUP BY".to_owned()));
                },
                SelectColumn::Case(_) => {
                    proof {
                        lemma_aggregate_list_prefix(cols, rs, sel, i as int + 1, sel.len() as int);
                        assert(sel.take(sel.len() as int) =~= sel);
                    }
                    return Err(DatabaseError::ParseError("Cannot use CASE expressions with aggregates without GROUP BY".to_owned()));
                },
            }
            i = i + 1;
        }
        assert(sel.take(sel.len() as int) =~= sel);
        Ok((values, names))
    }
}

impl QueryExecutor {
    /// The rendered values of `row` at positions `proj`.
    pub(crate) fn render_at(row: &Row, proj: &Vec<usize>) -> (r: Vec<String>)
        requires
            forall|q: int| 0 <= q < proj@.len() ==> (#[trigger] proj@[q]) < row.values@.len(),
        ensures
            string_views(r@) == row_cells(row.values@, proj@),
    {
        let mut cells: Vec<String> = Vec::new();
        let mut k: usize = 0;
        while k < proj.len()
            invariant
                k <= proj@.len(),
                forall|q: int| 0 <= q < proj@.len() ==> (#[trigger] proj@[q]) < row.values@.len(),
                string_views(cells@) == row_cells(row.values@, proj@).take(k as int),
            decreases proj@.len() - k,
        {
            let shown = row.values[proj[k]].to_display_string();
            let ghost before = string_views(cells@);
            cells.push(shown);
            assert(string_views(cells@) =~= before.push(shown@));
            assert(string_views(cells@) =~= row_cells(row.values@, proj@).take(k as int + 1));
            k = k + 1;
        }
        assert(row_cells(row.values@, proj@).take(proj@.len() as int) =~= row_cells(row.values@, proj@));
        cells
    }

    /// The positions of the grouping columns; an unknown one is `ColumnNotFound`.
    fn group_positions(table: &Table, group_by: &Vec<String>) -> (r: Result<Vec<usize>, DatabaseError>)
        ensures
            match positions_of(table.columns@, string_views(group_by@)) {
                Err(n) => r matches Err(DatabaseError::ColumnNotFound(x)) && x@ == n,
                Ok(p) => r matches Ok(v) && v@ == p,
            },
            r matches Ok(v) ==> forall|q: int| 0 <= q < v@.len() ==> (#[trigger] v@[q]) < table.columns@.len(),
    {
        let ghost cols = table.columns@;
        let ghost gn = string_views(group_by@);
        proof {
            lemma_positions_of_in_range(cols, gn);
        }
        let mut out: Vec<usize> = Vec::new();
        let mut k: usize = 0;
        assert(gn.take(0) =~= Seq::<Seq<char>>::empty());
        while k < group_by.len()
            invariant
                k <= group_by@.len(),
                cols == table.columns@,
                gn == string_views(group_by@),
                positions_of(cols, gn.take(k as int)) == Ok::<Seq<usize>, Seq<char>>(out@),
            decreases group_by@.len() - k,
        {
            assert(gn.take(k as int + 1).drop_last() =~= gn.take(k as int));
            assert(gn.take(k as int + 1).last() == group_by@[k as int]@);
            match table.get_column_index(group_by[k].as_str()) {
                Some(ci) => {
                    out.push(ci);
                },
                None => {
                    proof {
                        lemma_positions_prefix(cols, gn, k as int + 1, gn.len() as int);
                        assert(gn.take(gn.len() as int) =~= gn);
                    }
                    return Err(DatabaseError::ColumnNotFound(group_by[k].clone()));
                },
            }
            k = k + 1;
        }
        assert(gn.take(gn.len() as int) =~= gn);
        proof {
            assert(positions_of(cols, gn) == Ok::<Seq<usize>, Seq<char>>(out@));
            let pp = positions_of(cols, gn)->Ok_0;
            assert(forall|q: int| 0 <= q < pp.len() ==> (#[trigger] pp[q]) < cols.len());
        }
        Ok(out)
    }

    /// Whether `name` is among `names`.
    fn listed_name(names: &Vec<String>, name: &str) -> (b: bool)
        ensures
            b == string_views(names@).contains(name@),
    {
        let mut j: usize = 0;
        while j < names.len()
            invariant
                j <= names@.len(),
                forall|m: int| 0 <= m < j ==> names@[m]@ != name@,
            decreases names@.len() - j,
        {
            if str_equal(names[j].as_str(), name) {
                assert(string_views(names@)[j as int] == name@);
                return true;
            }
            j = j + 1;
        }
        proof {
            if string_views(names@).contains(name@) {
                let m = choose|m: int| 0 <= m < string_views(names@).len() && string_views(names@)[m] == name@;
                assert(names@[m]@ == name@);
            }
        }
        false
    }

    /// The headings of a grouped SELECT list (see `group_headings`).
    fn grouped_headings(table: &Table, columns: &Vec<SelectColumn>, group_by: &Vec<String>) -> (r: Result<Vec<String>, DatabaseError>)
        ensures
            match group_headings(table.columns@, columns@, string_views(group_by@)) {
                Err(f) => r matches Err(e) && failure_is(e, f),
                Ok(ns) => r matches Ok(v) && string_views(v@) == ns,
            },
    {
        let ghost cols = table.columns@;
        let ghost sel = columns@;
        let ghost gn = string_views(group_by@);
        let none: Vec<&Row> = Vec::new();
        assert(deref_rows(none@) =~= Seq::<Row>::empty());
        let mut out: Vec<String> = Vec::new();
        let mut i: usize = 0;
        assert(sel.take(0) =~= Seq::<SelectColumn>::empty());
        assert(string_views(out@) =~= Seq::<Seq<char>>::empty());
        while i < columns.len()
            invariant
                i <= sel.len(),
                sel == columns@,
                cols == table.columns@,
                gn == string_views(group_by@),
                deref_rows(none@) == Seq::<Row>::empty(),
                none@.len() == 0,
                group_headings(cols, sel.take(i as int), gn) == Ok::<Seq<Seq<char>>, SelectFailure>(string_views(out@)),
            decreases sel.len() - i,
        {
            assert(sel.take(i as int + 1).drop_last() =~= sel.take(i as int));
            assert(sel.take(i as int + 1).last() == sel[i as int]);
            let ghost before = string_views(out@);
            match &columns[i] {
                SelectColumn::Regular(name) => {
                    if !Self::listed_name(group_by, name.as_str()) {
                        proof {
                            lemma_headings_prefix(cols, sel, gn, i as int + 1, sel.len() as int);
                            assert(sel.take(sel.len() as int) =~= sel);
                        }
                        let mut msg: Vec<char> = Vec::new();
                        push_str(&mut msg, "Column '");
                        push_str(&mut msg, name.as_str());
                        push_str(&mut msg, "' must appear in GROUP BY clause or be used in an aggregate function");
                        return Err(DatabaseError::ParseError(string_of(&msg)));
                    }
                    let n = name.clone();
                    out.push(n);
                    assert(string_views(out@) =~= before.push(n@));
                },
                SelectColumn::Aggregate(f) => {
                    assert(aggregate_fits(cols, deref_rows(none@), *f)) by {
                        assert(forall|c: int| column_values(Seq::<Row>::empty(), c) =~= Seq::<Value>::empty());
                    }
                    match Self::compute_aggregate(f, table, &none) {
                        Ok((_, n)) => {
                            out.push(n);
                            assert(string_views(out@) =~= before.push(n@));
                        },
                        Err(e) => {
                            proof {
                                lemma_headings_prefix(cols, sel, gn, i as int + 1, sel.len() as int);
                                assert(sel.take(sel.len() as int) =~= sel);
                            }
                            return Err(e);
                        },
                    }
                },
                SelectColumn::Case(c) => {
                    let heading = match &c.alias {
                        Some(a) => a.clone(),
                        None => "case".to_owned(),
                    };
                    out.push(heading);
                    assert(string_views(out@) =~= before.push(heading@));
                },
            }
            i = i + 1;
        }
        assert(sel.take(sel.len() as int) =~= sel);
        Ok(out)
    }
}

impl QueryExecutor {
    /// The groups of the rows: their keys in order of first appearance, and
    /// for each row the position of its group.
    pub(crate) fn assign_groups(rows: &Vec<&Row>, gp: &Vec<usize>) -> (r: (Vec<Vec<String>>, Vec<usize>))
        requires
            forall|m: int| 0 <= m < rows@.len() ==> forall|q: int| 0 <= q < gp@.len() ==> (#[trigger] gp@[q]) < (#[trigger] rows@[m]).values@.len(),
        ensures
            grid(r.0@) == group_keys(deref_rows(rows@), gp@),
            r.1@.len() == rows@.len(),
            forall|m: int| 0 <= m < rows@.len() ==> (#[trigger] r.1@[m]) < r.0@.len()
                && grid(r.0@)[r.1@[m] as int] == row_keys(deref_rows(rows@), gp@)[m],
    {
        let ghost rk = row_keys(deref_rows(rows@), gp@);
        let mut keys: Vec<Vec<String>> = Vec::new();
        let mut group_of: Vec<usize> = Vec::new();
        let mut i: usize = 0;
        assert(rk.take(0) =~= Seq::<Seq<Seq<char>>>::empty());
        assert(grid(keys@) =~= Seq::<Seq<Seq<char>>>::empty());
        while i < rows.len()
            invariant
                i <= rows@.len(),
                rk == row_keys(deref_rows(rows@), gp@),
                forall|m: int| 0 <= m < rows@.len() ==> forall|q: int| 0 <= q < gp@.len() ==> (#[trigger] gp@[q]) < (#[trigger] rows@[m]).values@.len(),
                grid(keys@) == first_occurrences(rk.take(i as int)),
                group_of@.len() == i,
                forall|m: int| 0 <= m < i ==> (#[trigger] group_of@[m]) < keys@.len() && grid(keys@)[group_of@[m] as int] == rk[m],
            decreases rows@.len() - i,
        {
            let key = Self::render_at(rows[i], gp);
            assert(string_views(key@) == rk[i as int]);
            assert(rk.take(i as int + 1).drop_last() =~= rk.take(i as int));
            assert(rk.take(i as int + 1).last() == rk[i as int]);
            let mut found: Option<usize> = None;
            let mut j: usize = 0;
            while j < keys.len()
                invariant
                    j <= keys@.len(),
                    found matches Some(g) ==> g < keys@.len() && grid(keys@)[g as int] == string_views(key@),
                    found is None ==> forall|m: int| 0 <= m < j ==> grid(keys@)[m] != string_views(key@),
                decreases keys@.len() - j,
            {
                if found.is_none() && Self::rows_equal(&keys[j], &key) {
                    found = Some(j);
                }
                j = j + 1;
            }
            proof {
                lemma_first_occurrences_contains(rk.take(i as int), rk[i as int]);
            }
            match found {
                Some(g) => {
                    proof {
                        assert(grid(keys@).contains(rk[i as int]));
                    }
                    group_of.push(g);
                },
                None => {
                    let ghost before = grid(keys@);
                    proof {
                        assert(!grid(keys@).contains(rk[i as int]));
                    }
                    keys.push(key);
                    assert(grid(keys@) =~= before.push(rk[i as int]));
                    group_of.push(keys.len() - 1);
                },
            }
            i = i + 1;
        }
        assert(rk.take(rows@.len() as int) =~= rk);
        (keys, group_of)
    }

    /// The rows of group `j`, in order.
    fn group_members<'b>(rows: &Vec<&'b Row>, group_of: &Vec<usize>, keys: Ghost<Seq<Seq<Seq<char>>>>, gp: Ghost<Seq<usize>>, j: usize)
        -> (r: Vec<&'b Row>)
        requires
            group_of@.len() == rows@.len(),
            j < keys@.len(),
            forall|a: int, b: int| 0 <= a < b < keys@.len() ==> keys@[a] != keys@[b],
            forall|m: int| 0 <= m < rows@.len() ==> (#[trigger] group_of@[m]) < keys@.len()
                && keys@[group_of@[m] as int] == row_keys(deref_rows(rows@), gp@)[m],
        ensures
            deref_rows(r@) == members(deref_rows(rows@), gp@, keys@[j as int]),
            forall|m: int| 0 <= m < r@.len() ==> rows@.contains(#[trigger] r@[m]),
    {
        let ghost rs = deref_rows(rows@);
        let ghost key = keys@[j as int];
        let mut out: Vec<&'b Row> = Vec::new();
        let mut m: usize = 0;
        assert(rs.take(0) =~= Seq::<Row>::empty());
        while m < rows.len()
            invariant
                m <= rows@.len(),
                rs == deref_rows(rows@),
                key == keys@[j as int],
                j < keys@.len(),
                group_of@.len() == rows@.len(),
                forall|a: int, b: int| 0 <= a < b < keys@.len() ==> keys@[a] != keys@[b],
                forall|q: int| 0 <= q < rows@.len() ==> (#[trigger] group_of@[q]) < keys@.len()
                    && keys@[group_of@[q] as int] == row_keys(deref_rows(rows@), gp@)[q],
                deref_rows(out@) == members(rs.take(m as int), gp@, key),
                forall|q: int| 0 <= q < out@.len() ==> rows@.contains(#[trigger] out@[q]),
            decreases rows@.len() - m,
        {
            assert(rs.take(m as int + 1).drop_last() =~= rs.take(m as int));
            assert(rs.take(m as int + 1).last() == rs[m as int]);
            let ghost rowkey = row_keys(rs, gp@)[m as int];
            assert(rowkey == row_cells(rs[m as int].values@, gp@));
            proof {
                if rowkey == key && group_of@[m as int] != j {
                    let g = group_of@[m as int] as int;
                    if g < j {
                        assert(keys@[g] != keys@[j as int]);
                    } else {
                        assert(keys@[j as int] != keys@[g]);
                    }
                }
            }
            if group_of[m] == j {
                let ghost before = out@;
                out.push(rows[m]);
                assert(deref_rows(out@) =~= deref_rows(before).push(rs[m as int]));
                assert forall|q: int| 0 <= q < out@.len() implies rows@.contains(#[trigger] out@[q]) by {
                    if q == out@.len() - 1 {
                        assert(rows@[m as int] == out@[q]);
                    } else {
                        assert(out@[q] == before[q]);
                    }
                }
            }
            m = m + 1;
        }
        assert(rs.take(rows@.len() as int) =~= rs);
        out
    }

    /// The first position of `name` among `names`.
    pub(crate) fn name_position(names: &Vec<String>, name: &str) -> (r: Option<usize>)
        ensures
            match first_where(string_views(names@), is_name(name@)) {
                Some(k) => r == Some(k as usize),
                None => r is None,
            },
    {
        let ghost nv = string_views(names@);
        let ghost p = is_name(name@);
        let mut j: usize = 0;
        while j < names.len()
            invariant
                j <= names@.len(),
                nv == string_views(names@),
                p == is_name(name@),
                first_where(nv.take(j as int), p) is None,
            decreases names@.len() - j,
        {
            let hit = str_equal(names[j].as_str(), name);
            assert(hit == p(nv[j as int]));
            proof {
                lemma_first_where_step(nv, p, j as int);
            }
            if hit {
                proof {
                    lemma_first_where_prefix(nv, p, j as int + 1, nv.len() as int);
                    assert(nv.take(nv.len() as int) =~= nv);
                }
                return Some(j);
            }
            j = j + 1;
        }
        assert(nv.take(nv.len() as int) =~= nv);
        None
    }

    /// The cells of one group (see `group_cells`).
    fn group_row(table: &Table, columns: &Vec<SelectColumn>, group_by: &Vec<String>, key: &Vec<String>, mem: &Vec<&Row>)
        -> (r: Result<Vec<AggregateValue>, DatabaseError>)
        requires
            key@.len() == group_by@.len(),
            forall|i: int| 0 <= i < columns@.len() ==>
                (#[trigger] columns@[i] matches SelectColumn::Regular(n) ==> string_views(group_by@).contains(n@)),
            forall|m: int| 0 <= m < mem@.len() ==> fits(table.columns@, (#[trigger] mem@[m]).values@),
            aggregates_fit(table.columns@, deref_rows(mem@), columns@),
        ensures
            match group_cells(table.columns@, columns@, string_views(group_by@), string_views(key@), deref_rows(mem@)) {
                Err(f) => r matches Err(e) && failure_is(e, f),
                Ok(vs) => r matches Ok(v) && v@.len() == vs.len() && forall|j: int| 0 <= j < vs.len() ==> shows(#[trigger] v@[j], vs[j]),
            },
    {
        let ghost cols = table.columns@;
        let ghost sel = columns@;
        let ghost gn = string_views(group_by@);
        let ghost kv = string_views(key@);
        let ghost ms = deref_rows(mem@);
        let mut out: Vec<AggregateValue> = Vec::new();
        let mut i: usize = 0;
        assert(sel.take(0) =~= Seq::<SelectColumn>::empty());
        while i < columns.len()
            invariant
                i <= sel.len(),
                sel == columns@,
                cols == table.columns@,
                gn == string_views(group_by@),
                kv == string_views(key@),
                ms == deref_rows(mem@),
                key@.len() == group_by@.len(),
                forall|q: int| 0 <= q < sel.len() ==> (#[trigger] sel[q] matches SelectColumn::Regular(n) ==> gn.contains(n@)),
                forall|m: int| 0 <= m < mem@.len() ==> fits(cols, (#[trigger] mem@[m]).values@),
                aggregates_fit(cols, ms, sel),
                group_cells(cols, sel.take(i as int), gn, kv, ms) matches Ok(vs)
                    && out@.len() == vs.len() && forall|j: int| 0 <= j < vs.len() ==> shows(#[trigger] out@[j], vs[j]),
            decreases sel.len() - i,
        {
            assert(sel.take(i as int + 1).drop_last() =~= sel.take(i as int));
            assert(sel.take(i as int + 1).last() == sel[i as int]);
            let ghost before = out@;
            let ghost prev = group_cells(cols, sel.take(i as int), gn, kv, ms)->Ok_0;
            let cell: AggregateValue = match &columns[i] {
                SelectColumn::Regular(name) => {
                    assert(gn.contains(name@));
                    proof {
                        if first_where(gn, is_name(name@)) is None {
                            lemma_first_where_none(gn, is_name(name@));
                            let w = choose|w: int| 0 <= w < gn.len() && gn[w] == name@;
                            assert(is_name(name@)(gn[w]));
                        }
                    }
                    proof {
                        lemma_first_where_found(gn, is_name(name@));
                    }
                    let ghost k = first_where(gn, is_name(name@)).unwrap();
                    let glen = group_by.len();
                    assert(gn.len() == glen);
                    assert(0 <= k < gn.len());
                    let found = Self::name_position(group_by, name.as_str());
                    assert(found == Some(k as usize));
                    let pos = match found {
                        Some(p) => p,
                        None => 0,
                    };
                    assert(pos as int == k);
                    let t = key[pos].clone();
                    assert(t@ == kv[pos as int]);
                    let c = AggregateValue::Text(t);
                    assert(group_cells(cols, sel.take(i as int + 1), gn, kv, ms)
                        == Ok::<Seq<AggregateView>, SelectFailure>(prev.push(AggregateView::Text(kv[pos as int]))));
                    assert(shows(c, group_cells(cols, sel.take(i as int + 1), gn, kv, ms)->Ok_0.last()));
                    c
                },
                SelectColumn::Aggregate(f) => {
                    assert(aggregate_fits(cols, ms, *f));
                    match Self::compute_aggregate(f, table, mem) {
                        Ok((v, _)) => {
                            assert(shows(v, group_cells(cols, sel.take(i as int + 1), gn, kv, ms)->Ok_0.last()));
                            v
                        },
                        Err(e) => {
                            proof {
                                lemma_group_cells_prefix(cols, sel, gn, kv, ms, i as int + 1, sel.len() as int);
                                assert(sel.take(sel.len() as int) =~= sel);
                            }
                            return Err(e);
                        },
                    }
                },
                SelectColumn::Case(c) => {
                    if mem.len() > 0 {
                        match Self::evaluate_case(c, &table.columns, mem[0]) {
                            Ok(v) => {
                                proof {
                                    let cv = case_value(cols, ms[0].values@, c.when_clauses@, else_or_null(c.else_value));
                                    if let Ok(w) = cv {
                                        lemma_identical_renders(v, w);
                                    }
                                }
                                let c = AggregateValue::Text(v.to_display_string());
                                assert(shows(c, group_cells(cols, sel.take(i as int + 1), gn, kv, ms)->Ok_0.last()));
                                c
                            },
                            Err(e) => {
                                proof {
                                    lemma_group_cells_prefix(cols, sel, gn, kv, ms, i as int + 1, sel.len() as int);
                                    assert(sel.take(sel.len() as int) =~= sel);
                                }
                                return Err(e);
                            },
                        }
                    } else {
                        let c = AggregateValue::Text("NULL".to_owned());
                        assert(shows(c, group_cells(cols, sel.take(i as int + 1), gn, kv, ms)->Ok_0.last()));
                        c
                    }
                },
            };
            out.push(cell);
            proof {
                let now = group_cells(cols, sel.take(i as int + 1), gn, kv, ms)->Ok_0;
                assert(now.len() == prev.len() + 1);
                assert forall|j: int| 0 <= j < now.len() implies shows(#[trigger] out@[j], now[j]) by {
                    if j < prev.len() {
                        assert(out@[j] == before[j]);
                    }
                }
            }
            i = i + 1;
        }
        assert(sel.take(sel.len() as int) =~= sel);
        Ok(out)
    }
}

impl QueryExecutor {
    /// SELECT with GROUP BY, before ordering (see `grouped_select`): one row
    /// of cells per group of the row versions visible in `snapshot` that the
    /// filter selects, groups in order of first appearance, with the headings.
    pub fn select_with_group_by(db: &Database, columns: Vec<SelectColumn>, from: String, filter: Option<Condition>,
        group_by: Vec<String>, snapshot: &Snapshot) -> (r: Result<(Vec<Vec<AggregateValue>>, Vec<String>), DatabaseError>)
        requires
            db.wf(),
            db.tables@.contains_key(from@) ==> rows_fit(db.tables@[from@])
                && groups_fit(*db, columns@, from@, filter, string_views(group_by@), *snapshot),
        ensures
            grouped_select(*db, columns@, from@, filter, string_views(group_by@), *snapshot, r),
    {
        let table = match db.get_table(from.as_str()) {
            Some(t) => t,
            None => return Err(DatabaseError::TableNotFound(from)),
        };
        let ghost cols = table.columns@;
        let ghost sel = columns@;
        let ghost gn = string_views(group_by@);
        let gp = match Self::group_positions(table, &group_by) {
            Ok(p) => p,
            Err(e) => return Err(e),
        };
        let rows = Self::select_rows(table, snapshot, &filter);
        let ghost rs = deref_rows(rows@);
        let names = match Self::grouped_headings(table, &columns, &group_by) {
            Ok(n) => n,
            Err(e) => return Err(e),
        };
        proof {
            lemma_headings_grouped(cols, sel, gn);
            lemma_positions_of_len(cols, gn);
            assert forall|m: int| 0 <= m < rows@.len() implies forall|q: int| 0 <= q < gp@.len()
                ==> (#[trigger] gp@[q]) < (#[trigger] rows@[m]).values@.len() by {
                assert(fits(cols, rows@[m].values@));
            }
        }
        let (keys, group_of) = Self::assign_groups(&rows, &gp);
        let ghost rk = row_keys(rs, gp@);
        let ghost gk = grid(keys@);
        proof {
            lemma_first_occurrences_distinct(rk);
        }
        let mut out: Vec<Vec<AggregateValue>> = Vec::new();
        let mut j: usize = 0;
        assert(gk.take(0) =~= Seq::<Seq<Seq<char>>>::empty());
        while j < keys.len()
            invariant
                j <= keys@.len(),
                gk == grid(keys@),
                gk == group_keys(rs, gp@),
                rk == row_keys(rs, gp@),
                rs == deref_rows(rows@),
                cols == table.columns@,
                sel == columns@,
                gn == string_views(group_by@),
                gp@.len() == gn.len(),
                group_of@.len() == rows@.len(),
                db.tables@.contains_key(from@),
                *table == db.tables@[from@],
                rs == selected_rows(cols, table.rows@, *snapshot, filter),
                positions_of(cols, gn) == Ok::<Seq<usize>, Seq<char>>(gp@),
                groups_fit(*db, sel, from@, filter, gn, *snapshot),
                forall|m: int| 0 <= m < rows@.len() ==> fits(cols, (#[trigger] rows@[m]).values@),
                forall|a: int, b: int| 0 <= a < b < gk.len() ==> gk[a] != gk[b],
                forall|m: int| 0 <= m < rows@.len() ==> (#[trigger] group_of@[m]) < keys@.len()
                    && gk[group_of@[m] as int] == rk[m],
                forall|q: int| 0 <= q < sel.len() ==> (#[trigger] sel[q] matches SelectColumn::Regular(n) ==> gn.contains(n@)),
                group_headings(cols, sel, gn) == Ok::<Seq<Seq<char>>, SelectFailure>(string_views(names@)),
                groups_cells(cols, sel, gn, rs, gp@, gk.take(j as int)) matches Ok(views) && rows_show(out@, views),
            decreases keys@.len() - j,
        {
            assert(gk.take(j as int + 1).drop_last() =~= gk.take(j as int));
            assert(gk.take(j as int + 1).last() == gk[j as int]);
            let mem = Self::group_members(&rows, &group_of, Ghost(gk), Ghost(gp@), j);
            proof {
                lemma_first_occurrences_contains(rk, gk[j as int]);
                assert(gk.contains(gk[j as int]));
                let m = choose|m: int| 0 <= m < rk.len() && rk[m] == gk[j as int];
                assert(rk[m] == row_cells(rs[m].values@, gp@));
                assert(keys@[j as int]@.len() == gp@.len());
                let t = db.tables@[from@];
                assert(t.columns@ == cols);
                assert(selected_rows(t.columns@, t.rows@, *snapshot, filter) == rs);
                assert(positions_of(t.columns@, gn) == Ok::<Seq<usize>, Seq<char>>(gp@));
                assert(group_keys(rs, gp@).contains(gk[j as int]));
                lemma_group_fits(*db, sel, from@, filter, gn, *snapshot, gp@, gk[j as int]);
                assert(aggregates_fit(cols, members(rs, gp@, gk[j as int]), sel));
                assert forall|q: int| 0 <= q < mem@.len() implies fits(cols, (#[trigger] mem@[q]).values@) by {
                    assert(rows@.contains(mem@[q]));
                    let w = choose|w: int| 0 <= w < rows@.len() && rows@[w] == mem@[q];
                    assert(fits(cols, rows@[w].values@));
                }
            }
            let ghost prev = groups_cells(cols, sel, gn, rs, gp@, gk.take(j as int))->Ok_0;
            match Self::group_row(table, &columns, &group_by, &keys[j], &mem) {
                Ok(row) => {
                    let ghost before = out@;
                    out.push(row);
                    proof {
                        let now = groups_cells(cols, sel, gn, rs, gp@, gk.take(j as int + 1))->Ok_0;
                        assert(now.len() == prev.len() + 1);
                        assert forall|i: int| 0 <= i < out@.len() implies (#[trigger] out@[i])@.len() == now[i].len()
                            && forall|k: int| 0 <= k < out@[i]@.len() ==> shows(#[trigger] out@[i]@[k], now[i][k]) by {
                            if i < before.len() {
                                assert(out@[i] == before[i]);
                            }
                        }
                    }
                },
                Err(e) => {
                    proof {
                        lemma_groups_cells_prefix(cols, sel, gn, rs, gp@, gk, j as int + 1, gk.len() as int);
                        assert(gk.take(gk.len() as int) =~= gk);
                    }
                    return Err(e);
                },
            }
            j = j + 1;
        }
        assert(gk.take(gk.len() as int) =~= gk);
        Ok((out, names))
    }
}

impl QueryExecutor {
    /// The positions `0..keys.len()` in the stable order of their texts.
    fn sort_text_positions(keys: &Vec<&String>, dir: SortOrder) -> (r: Vec<usize>)
        ensures
            r@ == sorted_order(keys@.map_values(|k: &String| k@), text_after(dir), keys@.len() as nat),
    {
        let ghost ks = keys@.map_values(|k: &String| k@);
        let mut out: Vec<usize> = Vec::new();
        let mut x: usize = 0;
        while x < keys.len()
            invariant
                x <= keys@.len(),
                ks == keys@.map_values(|k: &String| k@),
                out@ == sorted_order(ks, text_after(dir), x as nat),
                forall|m: int| 0 <= m < out@.len() ==> (#[trigger] out@[m]) < x,
            decreases keys@.len() - x,
        {
            let xs = chars_of(keys[x].as_str());
            let mut j: usize = out.len();
            let mut moving = true;
            while moving
                invariant
                    x < keys@.len(),
                    ks == keys@.map_values(|k: &String| k@),
                    xs@ == ks[x as int],
                    j <= out@.len(),
                    forall|m: int| 0 <= m < out@.len() ==> (#[trigger] out@[m]) < x,
                    forall|m: int| j <= m < out@.len() ==> text_after(dir)(ks[#[trigger] out@[m] as int], ks[x as int]),
                    !moving ==> (j == 0 || !text_after(dir)(ks[out@[j - 1] as int], ks[x as int])),
                decreases j + if moving { 1int } else { 0int },
            {
                if j > 0 {
                    let ys = chars_of(keys[out[j - 1]].as_str());
                    let goes = match dir {
                        SortOrder::Asc => chars_lt(&xs, &ys),
                        SortOrder::Desc => chars_lt(&ys, &xs),
                    };
                    if goes {
                        j = j - 1;
                    } else {
                        moving = false;
                    }
                } else {
                    moving = false;
                }
            }
            proof {
                lemma_insert_stable_at(out@, x, ks, text_after(dir), j as int);
            }
            let ghost before = out@;
            out.insert(j, x);
            assert forall|m: int| 0 <= m < out@.len() implies (#[trigger] out@[m]) < x + 1 by {
                if m < j {
                    assert(out@[m] == before[m]);
                } else if m > j {
                    assert(out@[m] == before[m - 1]);
                }
            }
            x = x + 1;
        }
        out
    }

    /// ORDER BY, DISTINCT, OFFSET and LIMIT over the rendered rows of a
    /// grouped SELECT (see `finished`); an unknown ORDER BY heading is
    /// `ColumnNotFound`.
    pub fn finish_grouped(rows: Vec<Vec<String>>, names: &Vec<String>, distinct: bool, order_by: Option<(String, SortOrder)>,
        limit: Option<usize>, offset: Option<usize>) -> (r: Result<Vec<Vec<String>>, DatabaseError>)
        requires
            forall|i: int| 0 <= i < rows@.len() ==> (#[trigger] rows@[i])@.len() == names@.len(),
        ensures
            match finished(grid(rows@), string_views(names@), distinct, order_by, limit, offset) {
                Err(c) => r matches Err(DatabaseError::ColumnNotFound(x)) && x@ == c,
                Ok(s) => r matches Ok(v) && grid(v@) == s,
            },
    {
        let ghost g = grid(rows@);
        let sorted: Vec<Vec<String>> = match &order_by {
            None => rows,
            Some((sort_column, dir)) => {
                let idx = match Self::name_position(names, sort_column.as_str()) {
                    Some(i) => i,
                    None => return Err(DatabaseError::ColumnNotFound(sort_column.clone())),
                };
                proof {
                    lemma_first_where_found(string_views(names@), is_name(sort_column@));
                }
                let ghost ks = g.map_values(|row: Seq<Seq<char>>| row[idx as int]);
                let mut keys: Vec<&String> = Vec::new();
                let mut q: usize = 0;
                while q < rows.len()
                    invariant
                        q <= rows@.len(),
                        idx < names@.len(),
                        g == grid(rows@),
                        ks == g.map_values(|row: Seq<Seq<char>>| row[idx as int]),
                        forall|i: int| 0 <= i < rows@.len() ==> (#[trigger] rows@[i])@.len() == names@.len(),
                        keys@.map_values(|k: &String| k@) == ks.take(q as int),
                    decreases rows@.len() - q,
                {
                    let ghost before = keys@;
                    keys.push(&rows[q][idx]);
                    assert(keys@.map_values(|k: &String| k@) =~= before.map_values(|k: &String| k@).push(rows@[q as int]@[idx as int]@));
                    assert(keys@.map_values(|k: &String| k@) =~= ks.take(q as int + 1));
                    q = q + 1;
                }
                assert(ks.take(rows@.len() as int) =~= ks);
                let order = Self::sort_text_positions(&keys, *dir);
                proof {
                    lemma_sorted_order_in_range(ks, text_after(*dir), ks.len());
                }
                let mut out: Vec<Vec<String>> = Vec::new();
                let mut q: usize = 0;
                while q < order.len()
                    invariant
                        q <= order@.len(),
                        g == grid(rows@),
                        ks.len() == rows@.len(),
                        order@ == sorted_order(ks, text_after(*dir), ks.len()),
                        forall|m: int| 0 <= m < order@.len() ==> (#[trigger] order@[m]) < ks.len(),
                        grid(out@) == order@.map_values(|p: usize| g[p as int]).take(q as int),
                    decreases order@.len() - q,
                {
                    let copy = Self::copy_row(&rows[order[q]]);
                    let ghost before = grid(out@);
                    out.push(copy);
                    assert(grid(out@) =~= before.push(string_views(copy@)));
                    assert(grid(out@) =~= order@.map_values(|p: usize| g[p as int]).take(q as int + 1));
                    q = q + 1;
                }
                assert(order@.map_values(|p: usize| g[p as int]).take(order@.len() as int) =~= order@.map_values(|p: usize| g[p as int]));
                out
            },
        };
        let deduped = if distinct { Self::distinct_rows(&sorted) } else { sorted };
        Ok(Self::window_rows(&deduped, offset, limit))
    }
}

impl QueryExecutor {
    /// Splits a column reference `table.column` around its only dot.
    fn parse_col_ref(s: &str) -> (r: Result<(String, String), DatabaseError>)
        ensures
            match column_ref(s@) {
                None => r matches Err(DatabaseError::ParseError(m)) && m@ == bad_reference_message(s@),
                Some(p) => r matches Ok(q) && q.0@ == p.0 && q.1@ == p.1,
            },
    {
        let cs = chars_of(s);
        let ghost sv = cs@;
        let mut dots: usize = 0;
        let mut first: Option<usize> = None;
        let mut i: usize = 0;
        assert(sv.take(0) =~= Seq::<char>::empty());
        while i < cs.len()
            invariant
                i <= sv.len(),
                sv == cs@,
                dots == occurrences(sv.take(i as int), '.'),
                dots <= i,
                match first {
                    Some(k) => first_where(sv.take(i as int), is_dot()) == Some(k as int) && k < i,
                    None => first_where(sv.take(i as int), is_dot()) is None,
                },
            decreases sv.len() - i,
        {
            assert(sv.take(i as int + 1).drop_last() =~= sv.take(i as int));
            assert(sv.take(i as int + 1).last() == sv[i as int]);
            proof {
                if first is None {
                    lemma_first_where_step(sv, is_dot(), i as int);
                } else {
                    lemma_first_where_prefix(sv, is_dot(), i as int, i as int + 1);
                }
            }
            if cs[i] == '.' {
                dots = dots + 1;
                if first.is_none() {
                    first = Some(i);
                }
            }
            i = i + 1;
        }
        assert(sv.take(sv.len() as int) =~= sv);
        if dots != 1 {
            let mut msg: Vec<char> = Vec::new();
            push_str(&mut msg, "Invalid column reference: ");
            push_str(&mut msg, s);
            return Err(DatabaseError::ParseError(string_of(&msg)));
        }
        let k: usize = match first {
            Some(k) => k,
            None => {
                proof {
                    lemma_first_where_none(sv, is_dot());
                    lemma_occurrences_none(sv, '.');
                }
                0
            },
        };
        let mut a: Vec<char> = Vec::new();
        let mut b: Vec<char> = Vec::new();
        let mut q: usize = 0;
        while q < cs.len()
            invariant
                q <= sv.len(),
                sv == cs@,
                k < sv.len(),
                q <= k ==> a@ == sv.take(q as int) && b@.len() == 0,
                q > k ==> a@ == sv.take(k as int) && b@ == sv.subrange(k as int + 1, q as int),
            decreases sv.len() - q,
        {
            if q < k {
                a.push(cs[q]);
                assert(a@ =~= sv.take(q as int + 1));
            } else if q > k {
                b.push(cs[q]);
                assert(b@ =~= sv.subrange(k as int + 1, q as int + 1));
            } else {
                assert(b@ =~= sv.subrange(k as int + 1, q as int + 1));
            }
            q = q + 1;
        }
        assert(sv.skip(k as int + 1) =~= sv.subrange(k as int + 1, sv.len() as int));
        Ok((string_of(&a), string_of(&b)))
    }

    /// The rendered values of a row, all of them.
    fn render_all(row: &Row) -> (r: Vec<String>)
        ensures
            string_views(r@) == rendered(row.values@),
    {
        let mut out: Vec<String> = Vec::new();
        let mut k: usize = 0;
        while k < row.values.len()
            invariant
                k <= row.values@.len(),
                string_views(out@) == rendered(row.values@).take(k as int),
            decreases row.values@.len() - k,
        {
            let shown = row.values[k].to_display_string();
            let ghost before = string_views(out@);
            out.push(shown);
            assert(string_views(out@) =~= before.push(shown@));
            assert(string_views(out@) =~= rendered(row.values@).take(k as int + 1));
            k = k + 1;
        }
        assert(rendered(row.values@).take(row.values@.len() as int) =~= rendered(row.values@));
        out
    }

    /// `n` NULL cells.
    fn null_cells(n: usize) -> (r: Vec<String>)
        ensures
            string_views(r@) == nulls(n as nat),
    {
        let mut out: Vec<String> = Vec::new();
        let mut k: usize = 0;
        while k < n
            invariant
                k <= n,
                string_views(out@) == nulls(k as nat),
            decreases n - k,
        {
            let c = "NULL".to_owned();
            let ghost before = string_views(out@);
            out.push(c);
            assert(string_views(out@) =~= before.push(c@));
            assert(string_views(out@) =~= nulls(k as nat + 1));
            k = k + 1;
        }
        out
    }

    /// Two rendered rows end to end.
    fn concat_rows(a: Vec<String>, b: &Vec<String>) -> (r: Vec<String>)
        ensures
            string_views(r@) == string_views(a@) + string_views(b@),
    {
        let mut out = a;
        let ghost base = string_views(out@);
        let mut k: usize = 0;
        while k < b.len()
            invariant
                k <= b@.len(),
                string_views(out@) == base + string_views(b@).take(k as int),
            decreases b@.len() - k,
        {
            let c = b[k].clone();
            let ghost before = string_views(out@);
            out.push(c);
            assert(string_views(out@) =~= before.push(c@));
            assert(string_views(out@) =~= base + string_views(b@).take(k as int + 1));
            k = k + 1;
        }
        assert(string_views(b@).take(b@.len() as int) =~= string_views(b@));
        out
    }

    /// Appends the joined rows of `main` (see `matches_of`); returns how many.
    #[verifier::rlimit(40)]
    fn append_matches(main: &Row, others: &Vec<Row>, mi: usize, ji: usize, snapshot: &Snapshot, out: &mut Vec<Vec<String>>)
        -> (n: usize)
        requires
            mi < main.values@.len(),
            forall|k: int| 0 <= k < others@.len() ==> ji < (#[trigger] others@[k]).values@.len(),
        ensures
            grid(final(out)@) == grid(old(out)@) + matches_of(*main, others@, mi as int, ji as int, *snapshot),
            n == matches_of(*main, others@, mi as int, ji as int, *snapshot).len(),
    {
        let ghost os = others@;
        let ghost base = grid(out@);
        let mut n: usize = 0;
        let mut k: usize = 0;
        assert(os.take(0) =~= Seq::<Row>::empty());
        assert(grid(out@) =~= base + Seq::<Seq<Seq<char>>>::empty());
        while k < others.len()
            invariant
                k <= os.len(),
                os == others@,
                mi < main.values@.len(),
                forall|q: int| 0 <= q < os.len() ==> ji < (#[trigger] os[q]).values@.len(),
                grid(out@) == base + matches_of(*main, os.take(k as int), mi as int, ji as int, *snapshot),
                n == matches_of(*main, os.take(k as int), mi as int, ji as int, *snapshot).len(),
                n <= k,
            decreases os.len() - k,
        {
            assert(os.take(k as int + 1).drop_last() =~= os.take(k as int));
            assert(os.take(k as int + 1).last() == os[k as int]);
            let o = &others[k];
            if o.is_visible_to_snapshot(snapshot) && main.values[mi].equals(&o.values[ji]) {
                let left = Self::render_all(main);
                let right = Self::render_all(o);
                let both = Self::concat_rows(left, &right);
                let ghost before = grid(out@);
                out.push(both);
                assert(grid(out@) =~= before.push(string_views(both@)));
                n = n + 1;
            }
            k = k + 1;
        }
        assert(os.take(os.len() as int) =~= os);
        n
    }

    /// Whether some version of `mains` visible in the snapshot holds a value equal to `v` in position `mi`.
    fn partner_exists(v: &Value, mains: &Vec<Row>, mi: usize, snapshot: &Snapshot) -> (b: bool)
        requires
            forall|k: int| 0 <= k < mains@.len() ==> mi < (#[trigger] mains@[k]).values@.len(),
        ensures
            b == has_partner(*v, mains@, mi as int, *snapshot),
    {
        let mut k: usize = 0;
        while k < mains.len()
            invariant
                k <= mains@.len(),
                forall|q: int| 0 <= q < mains@.len() ==> mi < (#[trigger] mains@[q]).values@.len(),
                forall|q: int| 0 <= q < k ==> !(visible_in(#[trigger] mains@[q], *snapshot) && value_eq(*v, mains@[q].values@[mi as int])),
            decreases mains@.len() - k,
        {
            if mains[k].is_visible_to_snapshot(snapshot) && v.equals(&mains[k].values[mi]) {
                return true;
            }
            k = k + 1;
        }
        false
    }
}

impl QueryExecutor {
    /// The headings `t.column` of a table's columns.
    fn qualified_headings(t: &str, cols: &Vec<Column>, out: &mut Vec<String>)
        ensures
            string_views(final(out)@) == string_views(old(out)@) + join_headings(t@, cols@),
    {
        let ghost base = string_views(out@);
        let mut k: usize = 0;
        while k < cols.len()
            invariant
                k <= cols@.len(),
                string_views(out@) == base + join_headings(t@, cols@).take(k as int),
            decreases cols@.len() - k,
        {
            let mut h: Vec<char> = Vec::new();
            push_str(&mut h, t);
            push_str(&mut h, ".");
            push_str(&mut h, cols[k].name.as_str());
            let heading = string_of(&h);
            let ghost before = string_views(out@);
            out.push(heading);
            assert(string_views(out@) =~= before.push(heading@));
            assert(string_views(out@) =~= base + join_headings(t@, cols@).take(k as int + 1));
            k = k + 1;
        }
        assert(join_headings(t@, cols@).take(cols@.len() as int) =~= join_headings(t@, cols@));
    }

    /// SELECT with one JOIN (see `join_select`): every column of both tables.
    pub fn select_with_join(db: &Database, distinct: bool, from: String, joins: Vec<JoinClause>, limit: Option<usize>,
        offset: Option<usize>, snapshot: &Snapshot) -> (r: Result<QueryResult, DatabaseError>)
        requires
            db.wf(),
            forall|k: Seq<char>| #[trigger] db.tables@.contains_key(k) ==> rows_fit(db.tables@[k]),
        ensures
            join_select(*db, distinct, from@, joins@, limit, offset, *snapshot, r),
    {
        let main_table = match db.get_table(from.as_str()) {
            Some(t) => t,
            None => return Err(DatabaseError::TableNotFound(from)),
        };
        if joins.len() != 1 {
            return Err(DatabaseError::ParseError("Currently only one JOIN is supported".to_owned()));
        }
        let join = &joins[0];
        let join_table = match db.get_table(join.table.as_str()) {
            Some(t) => t,
            None => return Err(DatabaseError::TableNotFound(join.table.clone())),
        };
        let (left_table, left_col) = match Self::parse_col_ref(join.on_left.as_str()) {
            Ok(p) => p,
            Err(e) => return Err(e),
        };
        let (_right_table, right_col) = match Self::parse_col_ref(join.on_right.as_str()) {
            Ok(p) => p,
            Err(e) => return Err(e),
        };
        let (main_col, join_col) = if str_equal(left_table.as_str(), from.as_str()) {
            (left_col, right_col)
        } else {
            (right_col, left_col)
        };
        let mi = match main_table.get_column_index(main_col.as_str()) {
            Some(i) => i,
            None => return Err(DatabaseError::ColumnNotFound(main_col)),
        };
        let ji = match join_table.get_column_index(join_col.as_str()) {
            Some(i) => i,
            None => return Err(DatabaseError::ColumnNotFound(join_col)),
        };
        let mut headings: Vec<String> = Vec::new();
        Self::qualified_headings(from.as_str(), &main_table.columns, &mut headings);
        Self::qualified_headings(join.table.as_str(), &join_table.columns, &mut headings);
        assert(string_views(headings@) =~= join_headings(from@, main_table.columns@) + join_headings(join.table@, join_table.columns@));
        let ghost ms = main_table.rows@;
        let ghost js = join_table.rows@;
        let left = join.join_type == JoinType::Left;
        let jw = join_table.columns.len();
        let mw = main_table.columns.len();
        proof {
            assert(rows_fit(*main_table));
            assert(rows_fit(*join_table));
        }
        let mut rows: Vec<Vec<String>> = Vec::new();
        let mut i: usize = 0;
        assert(ms.take(0) =~= Seq::<Row>::empty());
        assert(grid(rows@) =~= Seq::<Seq<Seq<char>>>::empty());
        while i < main_table.rows.len()
            invariant
                i <= ms.len(),
                ms == main_table.rows@,
                js == join_table.rows@,
                mi < main_table.columns@.len(),
                ji < join_table.columns@.len(),
                jw == join_table.columns@.len(),
                rows_fit(*main_table),
                rows_fit(*join_table),
                grid(rows@) == main_side(ms.take(i as int), js, mi as int, ji as int, *snapshot, left, jw as nat),
            decreases ms.len() - i,
        {
            assert(ms.take(i as int + 1).drop_last() =~= ms.take(i as int));
            assert(ms.take(i as int + 1).last() == ms[i as int]);
            let main_row = &main_table.rows[i];
            assert(fits(main_table.columns@, main_row.values@));
            if main_row.is_visible_to_snapshot(snapshot) {
                assert forall|k: int| 0 <= k < js.len() implies ji < (#[trigger] js[k]).values@.len() by {
                    assert(fits(join_table.columns@, js[k].values@));
                }
                let ghost before = grid(rows@);
                let n = Self::append_matches(main_row, &join_table.rows, mi, ji, snapshot, &mut rows);
                if left && n == 0 {
                    let vals = Self::render_all(main_row);
                    let pad = Self::null_cells(jw);
                    let padded = Self::concat_rows(vals, &pad);
                    let ghost mid = grid(rows@);
                    rows.push(padded);
                    assert(grid(rows@) =~= mid.push(string_views(padded@)));
                }
                assert(grid(rows@) =~= main_side(ms.take(i as int + 1), js, mi as int, ji as int, *snapshot, left, jw as nat));
            }
            i = i + 1;
        }
        assert(ms.take(ms.len() as int) =~= ms);
        let ghost main_part = grid(rows@);
        if join.join_type == JoinType::Right {
            let mut k: usize = 0;
            assert(js.take(0) =~= Seq::<Row>::empty());
            assert(grid(rows@) =~= main_part + right_side(ms, js.take(0), mi as int, ji as int, *snapshot, mw as nat));
            while k < join_table.rows.len()
                invariant
                    k <= js.len(),
                    ms == main_table.rows@,
                    js == join_table.rows@,
                    mi < main_table.columns@.len(),
                    ji < join_table.columns@.len(),
                    mw == main_table.columns@.len(),
                    rows_fit(*main_table),
                    rows_fit(*join_table),
                    grid(rows@) == main_part + right_side(ms, js.take(k as int), mi as int, ji as int, *snapshot, mw as nat),
                decreases js.len() - k,
            {
                assert(js.take(k as int + 1).drop_last() =~= js.take(k as int));
                assert(js.take(k as int + 1).last() == js[k as int]);
                let join_row = &join_table.rows[k];
                assert(fits(join_table.columns@, join_row.values@));
                if join_row.is_visible_to_snapshot(snapshot) {
                    assert forall|q: int| 0 <= q < ms.len() implies mi < (#[trigger] ms[q]).values@.len() by {
                        assert(fits(main_table.columns@, ms[q].values@));
                    }
                    if !Self::partner_exists(&join_row.values[ji], &main_table.rows, mi, snapshot) {
                        let pad = Self::null_cells(mw);
                        let vals = Self::render_all(join_row);
                        let padded = Self::concat_rows(pad, &vals);
                        let ghost before = grid(rows@);
                        rows.push(padded);
                        assert(grid(rows@) =~= before.push(string_views(padded@)));
                    }
                }
                assert(grid(rows@) =~= main_part + right_side(ms, js.take(k as int + 1), mi as int, ji as int, *snapshot, mw as nat));
                k = k + 1;
            }
            assert(js.take(js.len() as int) =~= js);
        } else {
            assert(grid(rows@) =~= main_part + Seq::<Seq<Seq<char>>>::empty());
        }
        let deduped = if distinct { Self::distinct_rows(&rows) } else { rows };
        let result = Self::window_rows(&deduped, offset, limit);
        Ok(QueryResult::Rows(result, headings))
    }
}

} // verus!
