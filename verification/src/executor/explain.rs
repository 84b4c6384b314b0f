//! EXPLAIN: the access path a SELECT would take, and its rendering.

use vstd::prelude::*;
use crate::catalog::database::Database;
use crate::catalog::error::DatabaseError;
use crate::catalog::value::{Value, debug_of};
use crate::executor::QueryResult;
use crate::executor::conditions::Condition;
use crate::index::{Index, IndexType};
use crate::text::{decimal, fmt_usize, push_str, str_equal, string_of};

verus! {

/// How a table is read.
#[derive(Clone, Copy, Debug, PartialEq, Eq, Structural)]
pub enum ScanType {
    SequentialScan,
    IndexScan,
    UniqueIndexScan,
}

/// The plan of a single-table SELECT.
#[derive(Debug)]
pub struct QueryPlan {
    pub scan_type: ScanType,
    pub table_name: String,
    pub index_name: Option<String>,
    /// "hash" or "btree".
    pub index_type: Option<String>,
    pub filter: Option<String>,
    pub estimated_rows: usize,
    /// "O(1)", "O(log n)" or "O(n)".
    pub cost: String,
}

/// How a table is read, through which index (its name and kind), at what cost,
/// and how many rows it is expected to give.
pub ghost struct AccessView {
    pub scan: ScanType,
    pub index_name: Option<Seq<char>>,
    pub index_type: Option<Seq<char>>,
    pub cost: Seq<char>,
    pub estimated_rows: nat,
}

/// The view of a string that may be absent.
pub open spec fn opt_view(s: Option<String>) -> Option<Seq<char>> {
    match s {
        Some(t) => Some(t@),
        None => None,
    }
}

/// The access path a plan records.
pub open spec fn plan_access(p: QueryPlan) -> AccessView {
    AccessView {
        scan: p.scan_type,
        index_name: opt_view(p.index_name),
        index_type: opt_view(p.index_type),
        cost: p.cost@,
        estimated_rows: p.estimated_rows as nat,
    }
}

/// The access path of a result of `find_index_for_condition`.
pub open spec fn found_access(a: (ScanType, Option<(String, String)>, String, usize)) -> AccessView {
    AccessView {
        scan: a.0,
        index_name: match a.1 { Some(p) => Some(p.0@), None => None },
        index_type: match a.1 { Some(p) => Some(p.1@), None => None },
        cost: a.2@,
        estimated_rows: a.3 as nat,
    }
}

/// A comparison an index may serve.
#[derive(Clone, Copy, PartialEq, Eq, Structural)]
pub enum CompareOp {
    Eq,
    Gt,
    Lt,
    Ge,
    Le,
    Like,
    In,
}

/// The position of the first element of `s` that satisfies `p`.
pub open spec fn first_where<T>(s: Seq<T>, p: spec_fn(T) -> bool) -> Option<int>
    decreases s.len(),
{
    if s.len() == 0 {
        None
    } else {
        match first_where(s.drop_last(), p) {
            Some(i) => Some(i),
            None => if p(s.last()) { Some(s.len() - 1) } else { None },
        }
    }
}

/// The columns compared for equality along a chain of ANDs, left to right.
pub open spec fn equals_columns(c: Condition) -> Seq<Seq<char>>
    decreases c,
{
    match c {
        Condition::Equals(col, _) => seq![col@],
        Condition::And(l, r) => equals_columns(*l) + equals_columns(*r),
        _ => Seq::empty(),
    }
}

/// The column and comparison of a condition an index may serve.
pub open spec fn indexed_comparison(c: Condition) -> Option<(Seq<char>, CompareOp)> {
    match c {
        Condition::Equals(col, _) => Some((col@, CompareOp::Eq)),
        Condition::GreaterThan(col, _) => Some((col@, CompareOp::Gt)),
        Condition::LessThan(col, _) => Some((col@, CompareOp::Lt)),
        Condition::GreaterThanOrEqual(col, _) => Some((col@, CompareOp::Ge)),
        Condition::LessThanOrEqual(col, _) => Some((col@, CompareOp::Le)),
        Condition::Like(col, _) => Some((col@, CompareOp::Like)),
        Condition::In(col, _) => Some((col@, CompareOp::In)),
        _ => None,
    }
}

/// A composite index of `table` over exactly the columns compared in `eq`.
pub open spec fn serves_equalities(ix: Index, table: Seq<char>, eq: Seq<Seq<char>>) -> bool {
    &&& ix.spec_table_name() == table
    &&& ix.spec_columns().len() > 1
    &&& ix.spec_columns().len() == eq.len()
    &&& forall|k: int| 0 <= k < ix.spec_columns().len() ==> eq.contains(#[trigger] ix.spec_columns()[k]@)
}

/// A single-column index of `table` on `col` that can serve `op`: a B-tree
/// serves every comparison, a hash index only `=` and IN.
pub open spec fn serves_comparison(ix: Index, table: Seq<char>, col: Seq<char>, op: CompareOp) -> bool {
    &&& ix.spec_table_name() == table
    &&& ix.spec_columns().len() <= 1
    &&& ix.spec_columns()[0]@ == col
    &&& (ix is Hash ==> (op == CompareOp::Eq || op == CompareOp::In))
}

/// The indexes that serve a chain of equalities on `eq`.
pub open spec fn equalities_served(table: Seq<char>, eq: Seq<Seq<char>>) -> spec_fn(Index) -> bool {
    |ix: Index| serves_equalities(ix, table, eq)
}

/// The indexes that serve `op` on `col`.
pub open spec fn comparison_served(table: Seq<char>, col: Seq<char>, op: CompareOp) -> spec_fn(Index) -> bool {
    |ix: Index| serves_comparison(ix, table, col, op)
}

/// The views of a list of strings.
pub open spec fn str_views(v: Seq<&str>) -> Seq<Seq<char>> {
    v.map_values(|s: &str| s@)
}

/// The name of an index's kind.
pub open spec fn kind_name(ix: Index) -> Seq<char> {
    match ix {
        Index::BTree(_) => "btree"@,
        Index::Hash(_) => "hash"@,
    }
}

/// How a unique index is scanned, or another one.
pub open spec fn scan_of(unique: bool) -> ScanType {
    if unique { ScanType::UniqueIndexScan } else { ScanType::IndexScan }
}

/// Scan, cost and row estimate through a composite index.
pub open spec fn composite_access(ix: Index, total: nat) -> (ScanType, Seq<char>, nat) {
    (
        scan_of(ix.spec_unique()),
        if ix is Hash { "O(1)"@ } else { "O(log n)"@ },
        if ix.spec_unique() { 1 } else { total / 10 },
    )
}

/// Scan, cost and row estimate through a single-column index serving `op`.
pub open spec fn single_access(ix: Index, op: CompareOp, total: nat) -> (ScanType, Seq<char>, nat) {
    if ix is Hash {
        (scan_of(ix.spec_unique()), "O(1)"@, if ix.spec_unique() { 1 } else { total / 10 })
    } else {
        (
            scan_of(ix.spec_unique() && op == CompareOp::Eq),
            "O(log n)"@,
            match op {
                CompareOp::Eq => if ix.spec_unique() { 1 } else { total / 10 },
                CompareOp::Gt | CompareOp::Lt | CompareOp::Ge | CompareOp::Le => total / 3,
                CompareOp::In => total / 10,
                CompareOp::Like => total,
            },
        )
    }
}

/// The access through index `ix`, named `name`, with the given scan, cost and estimate.
pub open spec fn through(name: Seq<char>, ix: Index, sce: (ScanType, Seq<char>, nat)) -> AccessView {
    AccessView {
        scan: sce.0,
        index_name: Some(name),
        index_type: Some(kind_name(ix)),
        cost: sce.1,
        estimated_rows: sce.2,
    }
}

/// A sequential scan of `total` rows.
pub open spec fn sequential(total: nat) -> AccessView {
    AccessView {
        scan: ScanType::SequentialScan,
        index_name: None,
        index_type: None,
        cost: "O(n)"@,
        estimated_rows: total,
    }
}

/// The access path for `c` on `table`: a composite index over exactly the
/// columns of a chain of two or more equalities, else the first single-column
/// index that serves the comparison, else a sequential scan; among several
/// candidates, the first in the catalog's order.
pub open spec fn access_for(db: Database, table: Seq<char>, c: Condition, total: nat) -> AccessView {
    let names = db.indexes.keys();
    let ixs = db.indexes.vals();
    let eq = equals_columns(c);
    let comp = if eq.len() >= 2 { first_where(ixs, equalities_served(table, eq)) } else { None };
    match comp {
        Some(i) => through(names[i], ixs[i], composite_access(ixs[i], total)),
        None => single_column_access(db, table, c, total),
    }
}

/// The access path for `c` on `table` through a single-column index, if any serves it.
pub open spec fn single_column_access(db: Database, table: Seq<char>, c: Condition, total: nat) -> AccessView {
    let names = db.indexes.keys();
    let ixs = db.indexes.vals();
    match indexed_comparison(c) {
        None => sequential(total),
        Some((col, op)) => match first_where(ixs, comparison_served(table, col, op)) {
            Some(i) => through(names[i], ixs[i], single_access(ixs[i], op, total)),
            None => sequential(total),
        },
    }
}

/// EXPLAIN's access path holds together: a sequential scan goes through no
/// index, costs O(n) and estimates every row; otherwise the path names an
/// index of the table, reports its kind, costs O(1) through a hash index and
/// O(log n) through a B-tree, scans uniquely only through a unique index, and
/// uses a hash index only for `=`, IN or a chain of two or more equalities.
pub proof fn law_access_path(db: Database, table: Seq<char>, c: Condition, total: nat)
    requires
        db.wf(),
    ensures
        ({
            let a = access_for(db, table, c, total);
            &&& (a.index_name is None <==> a.scan == ScanType::SequentialScan)
            &&& a.index_name is None ==> a.index_type is None && a.cost == "O(n)"@ && a.estimated_rows == total
            &&& a.index_name matches Some(n) ==> {
                &&& db.indexes@.contains_key(n)
                &&& db.indexes@[n].spec_table_name() == table
                &&& a.index_type == Some(kind_name(db.indexes@[n]))
                &&& a.cost == if db.indexes@[n] is Hash { "O(1)"@ } else { "O(log n)"@ }
                &&& (a.scan == ScanType::UniqueIndexScan ==> db.indexes@[n].spec_unique())
                &&& (db.indexes@[n] is Hash ==> (c is Equals || c is In || equals_columns(c).len() >= 2))
            }
        }),
{
    let names = db.indexes.keys();
    let ixs = db.indexes.vals();
    db.indexes.lemma_lengths();
    let eq = equals_columns(c);
    lemma_first_where_found(ixs, equalities_served(table, eq));
    if eq.len() >= 2 && first_where(ixs, equalities_served(table, eq)) is Some {
        db.indexes.lemma_lookup(first_where(ixs, equalities_served(table, eq))->0);
    } else if let Some((col, op)) = indexed_comparison(c) {
        lemma_first_where_found(ixs, comparison_served(table, col, op));
        if let Some(i) = first_where(ixs, comparison_served(table, col, op)) {
            db.indexes.lemma_lookup(i);
        }
    }
}

/// Looking one element further: the first match in `s.take(i + 1)` is the one
/// in `s.take(i)`, else `i` if `s[i]` matches.
pub proof fn lemma_first_where_step<T>(s: Seq<T>, p: spec_fn(T) -> bool, i: int)
    requires
        0 <= i < s.len(),
        first_where(s.take(i), p) is None,
    ensures
        first_where(s.take(i + 1), p) == if p(s[i]) { Some(i) } else { None::<int> },
{
    assert(s.take(i + 1).drop_last() =~= s.take(i));
}

/// A match found in a prefix is the first match of the whole sequence.
pub proof fn lemma_first_where_prefix<T>(s: Seq<T>, p: spec_fn(T) -> bool, k: int, m: int)
    requires
        0 <= k <= m <= s.len(),
        first_where(s.take(k), p) is Some,
    ensures
        first_where(s.take(m), p) == first_where(s.take(k), p),
    decreases m - k,
{
    if m > k {
        lemma_first_where_prefix(s, p, k, m - 1);
        assert(s.take(m).drop_last() =~= s.take(m - 1));
    }
}

/// With no first match, nothing matches.
pub proof fn lemma_first_where_none<T>(s: Seq<T>, p: spec_fn(T) -> bool)
    requires
        first_where(s, p) is None,
    ensures
        forall|i: int| 0 <= i < s.len() ==> !p(#[trigger] s[i]),
    decreases s.len(),
{
    if s.len() > 0 {
        lemma_first_where_none(s.drop_last(), p);
        assert forall|i: int| 0 <= i < s.len() implies !p(#[trigger] s[i]) by {
            if i < s.len() - 1 {
                assert(s.drop_last()[i] == s[i]);
            }
        }
    }
}

/// Two tests that agree on every element find the same first match.
pub proof fn lemma_first_where_agree<T>(s: Seq<T>, p: spec_fn(T) -> bool, q: spec_fn(T) -> bool)
    requires
        forall|i: int| 0 <= i < s.len() ==> p(#[trigger] s[i]) == q(s[i]),
    ensures
        first_where(s, p) == first_where(s, q),
    decreases s.len(),
{
    if s.len() > 0 {
        assert forall|i: int| 0 <= i < s.drop_last().len() implies p(#[trigger] s.drop_last()[i]) == q(s.drop_last()[i]) by {
            assert(s.drop_last()[i] == s[i]);
        }
        lemma_first_where_agree(s.drop_last(), p, q);
        assert(p(s[s.len() - 1]) == q(s[s.len() - 1]));
    }
}

/// A first match lies within the sequence and matches.
pub proof fn lemma_first_where_found<T>(s: Seq<T>, p: spec_fn(T) -> bool)
    ensures
        first_where(s, p) matches Some(i) ==> 0 <= i < s.len() && p(s[i]),
    decreases s.len(),
{
    if s.len() > 0 {
        lemma_first_where_found(s.drop_last(), p);
    }
}

/// Every index of `table` covers at least one column.
pub open spec fn indexes_have_columns(db: Database, table: Seq<char>) -> bool {
    forall|i: int| 0 <= i < db.indexes.vals().len() && (#[trigger] db.indexes.vals()[i]).spec_table_name() == table
        ==> db.indexes.vals()[i].spec_columns().len() > 0
}

/// The `Debug` rendering of the values of a list, comma separated.
pub open spec fn debug_values(vs: Seq<Value>) -> Seq<char>
    decreases vs.len(),
{
    if vs.len() == 0 {
        Seq::empty()
    } else if vs.len() == 1 {
        debug_of(vs[0])
    } else {
        debug_values(vs.drop_last()) + ", "@ + debug_of(vs.last())
    }
}

/// How a condition is shown in a plan.
pub open spec fn condition_text(c: Condition) -> Seq<char>
    decreases c,
{
    match c {
        Condition::Equals(col, v) => col@ + " = "@ + debug_of(v),
        Condition::NotEquals(col, v) => col@ + " != "@ + debug_of(v),
        Condition::GreaterThan(col, v) => col@ + " > "@ + debug_of(v),
        Condition::LessThan(col, v) => col@ + " < "@ + debug_of(v),
        Condition::GreaterThanOrEqual(col, v) => col@ + " >= "@ + debug_of(v),
        Condition::LessThanOrEqual(col, v) => col@ + " <= "@ + debug_of(v),
        Condition::Between(col, lo, hi) => col@ + " BETWEEN "@ + debug_of(lo) + " AND "@ + debug_of(hi),
        Condition::Like(col, p) => col@ + " LIKE '"@ + p@ + "'"@,
        Condition::In(col, vs) => col@ + " IN (["@ + debug_values(vs@) + "])"@,
        Condition::IsNull(col) => col@ + " IS NULL"@,
        Condition::IsNotNull(col) => col@ + " IS NOT NULL"@,
        Condition::And(l, r) => "("@ + condition_text(*l) + ") AND ("@ + condition_text(*r) + ")"@,
        Condition::Or(l, r) => "("@ + condition_text(*l) + ") OR ("@ + condition_text(*r) + ")"@,
    }
}

/// The rule above and below a plan.
pub open spec fn plan_rule() -> Seq<char> {
    "──────────────────────────────────────────────────"@
}

/// The lines that say how the table is read.
pub open spec fn scan_lines(p: QueryPlan) -> Seq<char> {
    match p.scan_type {
        ScanType::SequentialScan => "→ Seq Scan on "@ + p.table_name@ + "\n"@ + match p.filter {
            Some(f) => "  Filter: "@ + f@ + "\n"@,
            None => Seq::empty(),
        },
        _ => "→ "@ + (if p.scan_type == ScanType::UniqueIndexScan { "Unique Index Scan"@ } else { "Index Scan"@ })
            + " using "@ + p.index_name->0@ + " ("@ + p.index_type->0@ + ")\n"@
            + "  on "@ + p.table_name@ + "\n"@ + match p.filter {
                Some(f) => "  Index Cond: "@ + f@ + "\n"@,
                None => Seq::empty(),
            },
    }
}

/// The rendering of a plan.
pub open spec fn plan_text(p: QueryPlan, no_joins: bool) -> Seq<char> {
    "QUERY PLAN\n"@ + plan_rule() + "\n"@ + scan_lines(p)
        + "  Rows: ~"@ + decimal(p.estimated_rows as nat) + "\n"@
        + "  Cost: "@ + p.cost@ + "\n"@
        + (if no_joins { Seq::empty() } else { "\n  (Note: JOIN analysis not yet implemented)\n"@ })
        + plan_rule()
}

/// A plan an index scan can be rendered from: it names its index.
pub open spec fn plan_complete(p: QueryPlan) -> bool {
    p.scan_type != ScanType::SequentialScan ==> (p.index_name is Some && p.index_type is Some)
}

/// `p` is the plan of `SELECT ... FROM table [WHERE filter]` in `db`.
pub open spec fn plan_of(db: Database, table: Seq<char>, filter: Option<Condition>, p: QueryPlan) -> bool {
    &&& db.tables@.contains_key(table)
    &&& p.table_name@ == table
    &&& plan_access(p) == match filter {
        Some(c) => access_for(db, table, c, db.tables@[table].rows@.len()),
        None => sequential(db.tables@[table].rows@.len()),
    }
    &&& opt_view(p.filter) == match filter {
        Some(c) => Some(condition_text(c)),
        None => None,
    }
}

/// Analyses SELECT statements.
pub struct ExplainExecutor;

impl ExplainExecutor {
    /// The plan of `SELECT ... FROM from [WHERE filter]`, with `joins` joins, rendered.
    pub fn explain(db: &Database, from: &str, filter: &Option<Condition>, joins: usize) -> (r: Result<QueryResult, DatabaseError>)
        requires
            db.wf(),
            indexes_have_columns(*db, from@),
        ensures
            db.tables@.contains_key(from@) <==> r is Ok,
            !db.tables@.contains_key(from@) ==> (r matches Err(DatabaseError::TableNotFound(n)) && n@ == from@),
            r is Ok ==> exists|p: QueryPlan| #[trigger] plan_of(*db, from@, *filter, p)
                && (r matches Ok(QueryResult::Success(s)) && s@ == plan_text(p, joins == 0)),
    {
        match Self::analyze_select(db, from, filter) {
            Ok(plan) => {
                let output = Self::format_plan(&plan, joins == 0);
                proof {
                    assert(plan_of(*db, from@, *filter, plan));
                }
                Ok(QueryResult::Success(output))
            },
            Err(e) => Err(e),
        }
    }

    /// The plan of `SELECT ... FROM table_name [WHERE filter]`.
    pub fn analyze_select(db: &Database, table_name: &str, filter: &Option<Condition>) -> (r: Result<QueryPlan, DatabaseError>)
        requires
            db.wf(),
            indexes_have_columns(*db, table_name@),
        ensures
            db.tables@.contains_key(table_name@) <==> r is Ok,
            !db.tables@.contains_key(table_name@) ==> (r matches Err(DatabaseError::TableNotFound(n)) && n@ == table_name@),
            r matches Ok(p) ==> plan_of(*db, table_name@, *filter, p),
    {
        let table = match db.get_table(table_name) {
            Some(t) => t,
            None => return Err(DatabaseError::TableNotFound(table_name.to_owned())),
        };
        let total_rows = table.rows.len();
        let (scan_type, index_info, cost, estimated_rows) = match filter {
            Some(cond) => Self::find_index_for_condition(db, table_name, cond, total_rows),
            None => (ScanType::SequentialScan, None, "O(n)".to_owned(), total_rows),
        };
        let (index_name, index_type) = match index_info {
            Some((name, itype)) => (Some(name), Some(itype)),
            None => (None, None),
        };
        let filter_text = match filter {
            Some(cond) => Some(Self::format_condition(cond)),
            None => None,
        };
        Ok(QueryPlan {
            scan_type,
            table_name: table_name.to_owned(),
            index_name,
            index_type,
            filter: filter_text,
            estimated_rows,
            cost,
        })
    }
}

impl ExplainExecutor {
    /// The access path for `condition` on `table_name`, whose table holds `total_rows` rows.
    pub fn find_index_for_condition(db: &Database, table_name: &str, condition: &Condition, total_rows: usize)
        -> (r: (ScanType, Option<(String, String)>, String, usize))
        requires
            db.wf(),
            indexes_have_columns(*db, table_name@),
        ensures
            found_access(r) == access_for(*db, table_name@, *condition, total_rows as nat),
    {
        let ghost names = db.indexes.keys();
        let ghost ixs = db.indexes.vals();
        let ghost table = table_name@;
        let mut equals_cols: Vec<&str> = Vec::new();
        Self::extract_equals_columns(condition, &mut equals_cols);
        let ghost eq = equals_columns(*condition);
        let ghost comp_pred = equalities_served(table, eq);
        proof {
            db.indexes.lemma_lengths();
        }
        let n = db.indexes.len();
        if equals_cols.len() >= 2 {
            let mut i: usize = 0;
            while i < n
                invariant
                    n == ixs.len(),
                    names.len() == ixs.len(),
                    db.indexes.keys() == names,
                    db.indexes.vals() == ixs,
                    i <= n,
                    table == table_name@,
                    eq == equals_columns(*condition),
                    comp_pred == equalities_served(table, eq),
                    str_views(equals_cols@) == eq,
                    first_where(ixs.take(i as int), comp_pred) is None,
                decreases n - i,
            {
                let index = db.indexes.value_at(i);
                assert(ixs[i as int] == *index);
                let mut chosen = false;
                if str_equal(index.table_name(), table_name) && index.is_composite() {
                    let index_cols = index.column_names();
                    if index_cols.len() == equals_cols.len() {
                        chosen = Self::all_listed(index_cols, &equals_cols);
                    }
                }
                assert(chosen == comp_pred(ixs[i as int]));
                proof {
                    lemma_first_where_step(ixs, comp_pred, i as int);
                    if chosen {
                        lemma_first_where_prefix(ixs, comp_pred, i as int + 1, n as int);
                        assert(ixs.take(n as int) =~= ixs);
                    }
                }
                if chosen {
                    let unique = index.is_unique();
                    let kind = index.index_type();
                    let scan_type = if unique { ScanType::UniqueIndexScan } else { ScanType::IndexScan };
                    let cost = match kind {
                        IndexType::Hash => "O(1)",
                        IndexType::BTree => "O(log n)",
                    };
                    let estimated = if unique { 1 } else { total_rows / 10 };
                    return (
                        scan_type,
                        Some((db.indexes.key_at(i).clone(), kind.as_str().to_owned())),
                        cost.to_owned(),
                        estimated,
                    );
                }
                i = i + 1;
            }
            assert(ixs.take(n as int) =~= ixs);
        }
        Self::find_single_column_index(db, table_name, condition, total_rows)
    }
}

impl ExplainExecutor {
    /// Whether every column of `index_cols` is among `listed`.
    fn all_listed(index_cols: &[String], listed: &Vec<&str>) -> (b: bool)
        ensures
            b == forall|k: int| 0 <= k < index_cols@.len() ==> str_views(listed@).contains(#[trigger] index_cols@[k]@),
    {
        let mut k: usize = 0;
        while k < index_cols.len()
            invariant
                k <= index_cols@.len(),
                forall|j: int| 0 <= j < k ==> str_views(listed@).contains(#[trigger] index_cols@[j]@),
            decreases index_cols@.len() - k,
        {
            if !Self::listed(listed, index_cols[k].as_str()) {
                return false;
            }
            k = k + 1;
        }
        true
    }

    /// Whether `name` is among `listed`.
    fn listed(listed: &Vec<&str>, name: &str) -> (b: bool)
        ensures
            b == str_views(listed@).contains(name@),
    {
        let mut j: usize = 0;
        while j < listed.len()
            invariant
                j <= listed@.len(),
                forall|m: int| 0 <= m < j ==> listed@[m]@ != name@,
            decreases listed@.len() - j,
        {
            if str_equal(listed[j], name) {
                assert(str_views(listed@)[j as int] == name@);
                return true;
            }
            j = j + 1;
        }
        proof {
            if str_views(listed@).contains(name@) {
                let m = choose|m: int| 0 <= m < str_views(listed@).len() && str_views(listed@)[m] == name@;
                assert(listed@[m]@ == name@);
            }
        }
        false
    }

    /// The access path through the first single-column index that serves `condition`.
    fn find_single_column_index(db: &Database, table_name: &str, condition: &Condition, total_rows: usize)
        -> (r: (ScanType, Option<(String, String)>, String, usize))
        requires
            db.wf(),
            indexes_have_columns(*db, table_name@),
        ensures
            found_access(r) == single_column_access(*db, table_name@, *condition, total_rows as nat),
    {
        let ghost names = db.indexes.keys();
        let ghost ixs = db.indexes.vals();
        let ghost table = table_name@;
        let (column, op): (&str, CompareOp) = match condition {
            Condition::Equals(col, _) => (col.as_str(), CompareOp::Eq),
            Condition::GreaterThan(col, _) => (col.as_str(), CompareOp::Gt),
            Condition::LessThan(col, _) => (col.as_str(), CompareOp::Lt),
            Condition::GreaterThanOrEqual(col, _) => (col.as_str(), CompareOp::Ge),
            Condition::LessThanOrEqual(col, _) => (col.as_str(), CompareOp::Le),
            Condition::Like(col, _) => (col.as_str(), CompareOp::Like),
            Condition::In(col, _) => (col.as_str(), CompareOp::In),
            _ => return (ScanType::SequentialScan, None, "O(n)".to_owned(), total_rows),
        };
        let ghost pred = comparison_served(table, column@, op);
        proof {
            db.indexes.lemma_lengths();
        }
        let n = db.indexes.len();
        let mut i: usize = 0;
        while i < n
            invariant
                n == ixs.len(),
                names.len() == ixs.len(),
                db.indexes.keys() == names,
                db.indexes.vals() == ixs,
                indexes_have_columns(*db, table),
                table == table_name@,
                pred == comparison_served(table, column@, op),
                indexed_comparison(*condition) == Some((column@, op)),
                i <= n,
                first_where(ixs.take(i as int), pred) is None,
            decreases n - i,
        {
            let index = db.indexes.value_at(i);
            assert(ixs[i as int] == *index);
            let mut usable = false;
            if str_equal(index.table_name(), table_name) && !index.is_composite() {
                assert(db.indexes.vals()[i as int].spec_table_name() == table);
                if str_equal(index.column_name(), column) {
                    usable = match index.index_type() {
                        IndexType::Hash => op == CompareOp::Eq || op == CompareOp::In,
                        IndexType::BTree => true,
                    };
                }
            }
            assert(usable == pred(ixs[i as int]));
            proof {
                lemma_first_where_step(ixs, pred, i as int);
                if usable {
                    lemma_first_where_prefix(ixs, pred, i as int + 1, n as int);
                    assert(ixs.take(n as int) =~= ixs);
                }
            }
            if usable {
                let unique = index.is_unique();
                let kind = index.index_type();
                let name = db.indexes.key_at(i).clone();
                match kind {
                    IndexType::Hash => {
                        let scan_type = if unique { ScanType::UniqueIndexScan } else { ScanType::IndexScan };
                        let estimated = if unique { 1 } else { total_rows / 10 };
                        return (scan_type, Some((name, "hash".to_owned())), "O(1)".to_owned(), estimated);
                    },
                    IndexType::BTree => {
                        let scan_type = if unique && op == CompareOp::Eq { ScanType::UniqueIndexScan } else { ScanType::IndexScan };
                        let estimated = match op {
                            CompareOp::Eq => if unique { 1 } else { total_rows / 10 },
                            CompareOp::Gt | CompareOp::Lt | CompareOp::Ge | CompareOp::Le => total_rows / 3,
                            CompareOp::In => total_rows / 10,
                            CompareOp::Like => total_rows,
                        };
                        return (scan_type, Some((name, "btree".to_owned())), "O(log n)".to_owned(), estimated);
                    },
                }
            }
            i = i + 1;
        }
        assert(ixs.take(n as int) =~= ixs);
        (ScanType::SequentialScan, None, "O(n)".to_owned(), total_rows)
    }

    /// Appends the columns compared for equality along a chain of ANDs.
    pub fn extract_equals_columns<'a>(cond: &'a Condition, result: &mut Vec<&'a str>)
        ensures
            str_views(final(result)@) == str_views(old(result)@) + equals_columns(*cond),
        decreases cond,
    {
        match cond {
            Condition::Equals(col, _) => {
                result.push(col.as_str());
                assert(str_views(result@) =~= str_views(old(result)@) + equals_columns(*cond));
            },
            Condition::And(left, right) => {
                Self::extract_equals_columns(left, result);
                Self::extract_equals_columns(right, result);
                assert(str_views(result@) =~= str_views(old(result)@) + equals_columns(*cond));
            },
            _ => {
                assert(str_views(result@) =~= str_views(old(result)@) + equals_columns(*cond));
            },
        }
    }

    /// How `cond` is shown in a plan.
    pub fn format_condition(cond: &Condition) -> (s: String)
        ensures
            s@ == condition_text(*cond),
    {
        let mut out: Vec<char> = Vec::new();
        Self::push_condition(cond, &mut out);
        assert(out@ =~= condition_text(*cond));
        string_of(&out)
    }

    fn push_condition(cond: &Condition, out: &mut Vec<char>)
        ensures
            final(out)@ == old(out)@ + condition_text(*cond),
        decreases cond,
    {
        match cond {
            Condition::Equals(col, v) => Self::push_comparison(out, col.as_str(), " = ", v),
            Condition::NotEquals(col, v) => Self::push_comparison(out, col.as_str(), " != ", v),
            Condition::GreaterThan(col, v) => Self::push_comparison(out, col.as_str(), " > ", v),
            Condition::LessThan(col, v) => Self::push_comparison(out, col.as_str(), " < ", v),
            Condition::GreaterThanOrEqual(col, v) => Self::push_comparison(out, col.as_str(), " >= ", v),
            Condition::LessThanOrEqual(col, v) => Self::push_comparison(out, col.as_str(), " <= ", v),
            Condition::Between(col, lo, hi) => {
                Self::push_comparison(out, col.as_str(), " BETWEEN ", lo);
                push_str(out, " AND ");
                hi.push_debug(out);
                assert(out@ =~= old(out)@ + condition_text(*cond));
            },
            Condition::Like(col, p) => {
                push_str(out, col.as_str());
                push_str(out, " LIKE '");
                push_str(out, p.as_str());
                push_str(out, "'");
                assert(out@ =~= old(out)@ + condition_text(*cond));
            },
            Condition::In(col, vs) => {
                push_str(out, col.as_str());
                push_str(out, " IN ([");
                Self::push_debug_values(vs, out);
                push_str(out, "])");
                assert(out@ =~= old(out)@ + condition_text(*cond));
            },
            Condition::IsNull(col) => {
                push_str(out, col.as_str());
                push_str(out, " IS NULL");
            },
            Condition::IsNotNull(col) => {
                push_str(out, col.as_str());
                push_str(out, " IS NOT NULL");
            },
            Condition::And(l, r) => {
                push_str(out, "(");
                Self::push_condition(l, out);
                push_str(out, ") AND (");
                Self::push_condition(r, out);
                push_str(out, ")");
                assert(out@ =~= old(out)@ + condition_text(*cond));
            },
            Condition::Or(l, r) => {
                push_str(out, "(");
                Self::push_condition(l, out);
                push_str(out, ") OR (");
                Self::push_condition(r, out);
                push_str(out, ")");
                assert(out@ =~= old(out)@ + condition_text(*cond));
            },
        }
    }

    fn push_comparison(out: &mut Vec<char>, col: &str, op: &str, v: &Value)
        ensures
            final(out)@ == old(out)@ + col@ + op@ + debug_of(*v),
    {
        push_str(out, col);
        push_str(out, op);
        v.push_debug(out);
        assert(out@ =~= old(out)@ + col@ + op@ + debug_of(*v));
    }

    fn push_debug_values(vs: &Vec<Value>, out: &mut Vec<char>)
        ensures
            final(out)@ == old(out)@ + debug_values(vs@),
    {
        let ghost start = out@;
        let mut i: usize = 0;
        while i < vs.len()
            invariant
                i <= vs@.len(),
                out@ == start + debug_values(vs@.take(i as int)),
            decreases vs@.len() - i,
        {
            assert(vs@.take(i as int + 1).drop_last() =~= vs@.take(i as int));
            if i > 0 {
                push_str(out, ", ");
            }
            vs[i].push_debug(out);
            proof {
                if i == 0 {
                    assert(vs@.take(0) =~= Seq::<Value>::empty());
                }
                assert(out@ =~= start + debug_values(vs@.take(i as int + 1)));
            }
            i = i + 1;
        }
        assert(vs@.take(vs@.len() as int) =~= vs@);
    }

    /// The rendering of a plan; `no_joins` when the query joins no other table.
    pub fn format_plan(plan: &QueryPlan, no_joins: bool) -> (s: String)
        requires
            plan_complete(*plan),
        ensures
            s@ == plan_text(*plan, no_joins),
    {
        let mut out: Vec<char> = Vec::new();
        push_str(&mut out, "QUERY PLAN\n");
        push_str(&mut out, "──────────────────────────────────────────────────");
        push_str(&mut out, "\n");
        let ghost head = out@;
        match plan.scan_type {
            ScanType::SequentialScan => {
                push_str(&mut out, "→ Seq Scan on ");
                push_str(&mut out, plan.table_name.as_str());
                push_str(&mut out, "\n");
                match &plan.filter {
                    Some(f) => {
                        push_str(&mut out, "  Filter: ");
                        push_str(&mut out, f.as_str());
                        push_str(&mut out, "\n");
                    },
                    None => {},
                }
            },
            _ => {
                let scan_name = if plan.scan_type == ScanType::UniqueIndexScan { "Unique Index Scan" } else { "Index Scan" };
                push_str(&mut out, "→ ");
                push_str(&mut out, scan_name);
                push_str(&mut out, " using ");
                match &plan.index_name {
                    Some(n) => push_str(&mut out, n.as_str()),
                    None => {},
                }
                push_str(&mut out, " (");
                match &plan.index_type {
                    Some(t) => push_str(&mut out, t.as_str()),
                    None => {},
                }
                push_str(&mut out, ")\n");
                push_str(&mut out, "  on ");
                push_str(&mut out, plan.table_name.as_str());
                push_str(&mut out, "\n");
                match &plan.filter {
                    Some(f) => {
                        push_str(&mut out, "  Index Cond: ");
                        push_str(&mut out, f.as_str());
                        push_str(&mut out, "\n");
                    },
                    None => {},
                }
            },
        }
        assert(out@ =~= head + scan_lines(*plan));
        push_str(&mut out, "  Rows: ~");
        let rows = fmt_usize(plan.estimated_rows);
        push_str(&mut out, rows.as_str());
        push_str(&mut out, "\n");
        push_str(&mut out, "  Cost: ");
        push_str(&mut out, plan.cost.as_str());
        push_str(&mut out, "\n");
        if !no_joins {
            push_str(&mut out, "\n  (Note: JOIN analysis not yet implemented)\n");
        }
        push_str(&mut out, "──────────────────────────────────────────────────");
        assert(out@ =~= plan_text(*plan, no_joins));
        string_of(&out)
    }
}

} // verus!
