//! UNION, INTERSECT and EXCEPT: what a compound query makes of the results
//! of its two SELECTs.

use vstd::prelude::*;
use crate::catalog::error::DatabaseError;
use crate::executor::QueryResult;
use crate::executor::queries::{QueryExecutor, first_occurrences, lemma_first_occurrences_contains,
    lemma_first_occurrences_distinct};
use crate::executor::system_catalogs::grid;
use crate::text::{decimal, fmt_usize, push_str, string_of, string_views};

verus! {

/// The rows of `left` that do (`common`) or do not occur in `right`, in order.
pub open spec fn rows_with(left: Seq<Seq<Seq<char>>>, right: Seq<Seq<Seq<char>>>, common: bool) -> Seq<Seq<Seq<char>>>
    decreases left.len(),
{
    if left.len() == 0 {
        Seq::empty()
    } else {
        let p = rows_with(left.drop_last(), right, common);
        if right.contains(left.last()) == common { p.push(left.last()) } else { p }
    }
}

/// The message for a side of a compound query that answered no rows.
pub open spec fn needs_select_message(op: Seq<char>) -> Seq<char> {
    op + " requires SELECT queries"@
}

/// The message for sides of a compound query with different column counts.
pub open spec fn column_count_message(op: Seq<char>, l: nat, r: nat) -> Seq<char> {
    op + " queries must have same number of columns: "@ + decimal(l) + " vs "@ + decimal(r)
}

/// What a compound query named `op` answers for the results of its sides:
/// refused unless both sides answered rows with as many columns; otherwise
/// the rows `combine` makes of the two sides' rows, under the left side's
/// column names.
pub open spec fn compound_outcome(op: Seq<char>, left: QueryResult, right: QueryResult,
    combine: spec_fn(Seq<Seq<Seq<char>>>, Seq<Seq<Seq<char>>>) -> Seq<Seq<Seq<char>>>,
    r: Result<QueryResult, DatabaseError>) -> bool {
    match (left, right) {
        (QueryResult::Rows(lrows, lcols), QueryResult::Rows(rrows, rcols)) => if lcols@.len() != rcols@.len() {
            r matches Err(DatabaseError::ParseError(m)) && m@ == column_count_message(op, lcols@.len(), rcols@.len())
        } else {
            r matches Ok(QueryResult::Rows(out, cols)) && cols == lcols && grid(out@) == combine(grid(lrows@), grid(rrows@))
        },
        _ => r matches Err(DatabaseError::ParseError(m)) && m@ == needs_select_message(op),
    }
}

/// The rows of UNION: both sides' rows, left first; without ALL, each row
/// only where it first occurs.
pub open spec fn union_rows(all: bool) -> spec_fn(Seq<Seq<Seq<char>>>, Seq<Seq<Seq<char>>>) -> Seq<Seq<Seq<char>>> {
    |l: Seq<Seq<Seq<char>>>, r: Seq<Seq<Seq<char>>>| if all { l + r } else { first_occurrences(l + r) }
}

/// The rows of INTERSECT: the left rows that occur on the right, each once.
pub open spec fn intersect_rows() -> spec_fn(Seq<Seq<Seq<char>>>, Seq<Seq<Seq<char>>>) -> Seq<Seq<Seq<char>>> {
    |l: Seq<Seq<Seq<char>>>, r: Seq<Seq<Seq<char>>>| first_occurrences(rows_with(l, r, true))
}

/// The rows of EXCEPT: the left rows that do not occur on the right, each once.
pub open spec fn except_rows() -> spec_fn(Seq<Seq<Seq<char>>>, Seq<Seq<Seq<char>>>) -> Seq<Seq<Seq<char>>> {
    |l: Seq<Seq<Seq<char>>>, r: Seq<Seq<Seq<char>>>| first_occurrences(rows_with(l, r, false))
}

/// A row occurs in `rows_with` exactly when it occurs on the left and its
/// occurrence on the right is as asked.
pub proof fn lemma_rows_with_contains(left: Seq<Seq<Seq<char>>>, right: Seq<Seq<Seq<char>>>, common: bool, x: Seq<Seq<char>>)
    ensures
        rows_with(left, right, common).contains(x) == (left.contains(x) && right.contains(x) == common),
    decreases left.len(),
{
    if left.len() > 0 {
        let p = left.drop_last();
        lemma_rows_with_contains(p, right, common, x);
        if left.contains(x) {
            let i = choose|i: int| 0 <= i < left.len() && left[i] == x;
            if i < left.len() - 1 {
                assert(p[i] == x);
            }
        }
        if p.contains(x) {
            let i = choose|i: int| 0 <= i < p.len() && p[i] == x;
            assert(left[i] == x);
        }
        let q = rows_with(p, right, common);
        if right.contains(left.last()) == common {
            if q.contains(x) {
                let i = choose|i: int| 0 <= i < q.len() && q[i] == x;
                assert(q.push(left.last())[i] == x);
            }
            if q.push(left.last()).contains(x) && x != left.last() {
                let i = choose|i: int| 0 <= i < q.len() + 1 && q.push(left.last())[i] == x;
                assert(q[i] == x);
            }
            assert(q.push(left.last())[q.len() as int] == left.last());
        }
    }
}

/// The result of INTERSECT holds each row at most once, and a row occurs in
/// it exactly when it occurs on both sides.
pub proof fn law_intersect_is_common_rows(left: QueryResult, right: QueryResult, r: Result<QueryResult, DatabaseError>)
    requires
        compound_outcome("INTERSECT"@, left, right, intersect_rows(), r),
    ensures
        r matches Ok(QueryResult::Rows(out, _)) ==> {
            &&& forall|a: int, b: int| 0 <= a < b < out@.len() ==> grid(out@)[a] != grid(out@)[b]
            &&& forall|x: Seq<Seq<char>>| #[trigger] grid(out@).contains(x) <==>
                    (left matches QueryResult::Rows(l, _) && right matches QueryResult::Rows(rr, _)
                        && grid(l@).contains(x) && grid(rr@).contains(x))
        },
{
    if let (QueryResult::Rows(l, lc), QueryResult::Rows(rr, rc)) = (left, right) {
        if lc@.len() == rc@.len() {
            let w = rows_with(grid(l@), grid(rr@), true);
            lemma_first_occurrences_distinct(w);
            assert forall|x: Seq<Seq<char>>| first_occurrences(w).contains(x) == (grid(l@).contains(x) && grid(rr@).contains(x)) by {
                lemma_first_occurrences_contains(w, x);
                lemma_rows_with_contains(grid(l@), grid(rr@), true, x);
            }
        }
    }
}

/// The result of EXCEPT holds each row at most once, and a row occurs in it
/// exactly when it occurs on the left side and not on the right.
pub proof fn law_except_is_left_only_rows(left: QueryResult, right: QueryResult, r: Result<QueryResult, DatabaseError>)
    requires
        compound_outcome("EXCEPT"@, left, right, except_rows(), r),
    ensures
        r matches Ok(QueryResult::Rows(out, _)) ==> {
            &&& forall|a: int, b: int| 0 <= a < b < out@.len() ==> grid(out@)[a] != grid(out@)[b]
            &&& forall|x: Seq<Seq<char>>| #[trigger] grid(out@).contains(x) <==>
                    (left matches QueryResult::Rows(l, _) && right matches QueryResult::Rows(rr, _)
                        && grid(l@).contains(x) && !grid(rr@).contains(x))
        },
{
    if let (QueryResult::Rows(l, lc), QueryResult::Rows(rr, rc)) = (left, right) {
        if lc@.len() == rc@.len() {
            let w = rows_with(grid(l@), grid(rr@), false);
            lemma_first_occurrences_distinct(w);
            assert forall|x: Seq<Seq<char>>| first_occurrences(w).contains(x) == (grid(l@).contains(x) && !grid(rr@).contains(x)) by {
                lemma_first_occurrences_contains(w, x);
                lemma_rows_with_contains(grid(l@), grid(rr@), false, x);
            }
        }
    }
}

/// UNION without ALL holds each row at most once, and a row occurs in it
/// exactly when it occurs on either side.
pub proof fn law_union_is_all_rows_once(left: QueryResult, right: QueryResult, r: Result<QueryResult, DatabaseError>)
    requires
        compound_outcome("UNION"@, left, right, union_rows(false), r),
    ensures
        r matches Ok(QueryResult::Rows(out, _)) ==> {
            &&& forall|a: int, b: int| 0 <= a < b < out@.len() ==> grid(out@)[a] != grid(out@)[b]
            &&& forall|x: Seq<Seq<char>>| #[trigger] grid(out@).contains(x) <==>
                    (left matches QueryResult::Rows(l, _) && right matches QueryResult::Rows(rr, _)
                        && (grid(l@).contains(x) || grid(rr@).contains(x)))
        },
{
    if let (QueryResult::Rows(l, lc), QueryResult::Rows(rr, rc)) = (left, right) {
        if lc@.len() == rc@.len() {
            let w = grid(l@) + grid(rr@);
            lemma_first_occurrences_distinct(w);
            assert forall|x: Seq<Seq<char>>| first_occurrences(w).contains(x) == (grid(l@).contains(x) || grid(rr@).contains(x)) by {
                lemma_first_occurrences_contains(w, x);
                if grid(l@).contains(x) {
                    let i = choose|i: int| 0 <= i < grid(l@).len() && grid(l@)[i] == x;
                    assert(w[i] == x);
                }
                if grid(rr@).contains(x) {
                    let i = choose|i: int| 0 <= i < grid(rr@).len() && grid(rr@)[i] == x;
                    assert(w[grid(l@).len() + i] == x);
                }
                if w.contains(x) {
                    let i = choose|i: int| 0 <= i < w.len() && w[i] == x;
                    if i < grid(l@).len() {
                        assert(grid(l@)[i] == x);
                    } else {
                        assert(grid(rr@)[i - grid(l@).len()] == x);
                    }
                }
            }
        }
    }
}

impl QueryExecutor {
    /// The message of a compound query whose side answered no rows.
    fn needs_select(op: &str) -> (m: String)
        ensures
            m@ == needs_select_message(op@),
    {
        let mut out: Vec<char> = Vec::new();
        push_str(&mut out, op);
        push_str(&mut out, " requires SELECT queries");
        string_of(&out)
    }

    /// The message of a compound query whose sides' column counts differ.
    fn column_count_mismatch(op: &str, l: usize, r: usize) -> (m: String)
        ensures
            m@ == column_count_message(op@, l as nat, r as nat),
    {
        let mut out: Vec<char> = Vec::new();
        push_str(&mut out, op);
        push_str(&mut out, " queries must have same number of columns: ");
        push_str(&mut out, fmt_usize(l).as_str());
        push_str(&mut out, " vs ");
        push_str(&mut out, fmt_usize(r).as_str());
        string_of(&out)
    }

    /// The rows and column names of both sides, when both answered rows with
    /// as many columns.
    fn compound_sides(op: &str, left: QueryResult, right: QueryResult)
        -> (r: Result<(Vec<Vec<String>>, Vec<String>, Vec<Vec<String>>), DatabaseError>)
        ensures
            match (left, right) {
                (QueryResult::Rows(lrows, lcols), QueryResult::Rows(rrows, rcols)) => if lcols@.len() != rcols@.len() {
                    r matches Err(DatabaseError::ParseError(m)) && m@ == column_count_message(op@, lcols@.len(), rcols@.len())
                } else {
                    r matches Ok(t) && t.0 == lrows && t.1 == lcols && t.2 == rrows
                },
                _ => r matches Err(DatabaseError::ParseError(m)) && m@ == needs_select_message(op@),
            },
    {
        let (lrows, lcols) = match left {
            QueryResult::Rows(rows, cols) => (rows, cols),
            QueryResult::Success(_) => return Err(DatabaseError::ParseError(Self::needs_select(op))),
        };
        let (rrows, rcols) = match right {
            QueryResult::Rows(rows, cols) => (rows, cols),
            QueryResult::Success(_) => return Err(DatabaseError::ParseError(Self::needs_select(op))),
        };
        if lcols.len() != rcols.len() {
            return Err(DatabaseError::ParseError(Self::column_count_mismatch(op, lcols.len(), rcols.len())));
        }
        Ok((lrows, lcols, rrows))
    }

    /// Whether `row` occurs among `rows`.
    fn has_row(rows: &Vec<Vec<String>>, row: &Vec<String>) -> (b: bool)
        ensures
            b == grid(rows@).contains(string_views(row@)),
    {
        let ghost g = grid(rows@);
        let mut i: usize = 0;
        while i < rows.len()
            invariant
                i <= rows@.len(),
                g == grid(rows@),
                forall|k: int| 0 <= k < i ==> g[k] != string_views(row@),
            decreases rows@.len() - i,
        {
            if Self::rows_equal(&rows[i], row) {
                assert(g[i as int] == string_views(row@));
                return true;
            }
            i = i + 1;
        }
        false
    }

    /// The rows of `left` that do (`common`) or do not occur in `right`, in order.
    fn rows_with(left: &Vec<Vec<String>>, right: &Vec<Vec<String>>, common: bool) -> (r: Vec<Vec<String>>)
        ensures
            grid(r@) == rows_with(grid(left@), grid(right@), common),
    {
        let ghost l = grid(left@);
        let ghost rg = grid(right@);
        let mut out: Vec<Vec<String>> = Vec::new();
        let mut i: usize = 0;
        assert(l.take(0) =~= Seq::<Seq<Seq<char>>>::empty());
        assert(grid(out@) =~= Seq::<Seq<Seq<char>>>::empty());
        while i < left.len()
            invariant
                i <= left@.len(),
                l == grid(left@),
                rg == grid(right@),
                grid(out@) == rows_with(l.take(i as int), rg, common),
            decreases left@.len() - i,
        {
            assert(l.take(i as int + 1).drop_last() =~= l.take(i as int));
            assert(l.take(i as int + 1).last() == l[i as int]);
            if Self::has_row(right, &left[i]) == common {
                let ghost before = grid(out@);
                let copy = Self::copy_row(&left[i]);
                out.push(copy);
                assert(grid(out@) =~= before.push(string_views(copy@)));
            }
            i = i + 1;
        }
        assert(l.take(left@.len() as int) =~= l);
        out
    }

    /// UNION of the results of two SELECTs (see `compound_outcome` and
    /// `union_rows`): the left rows, then the right ones; without `all`, each
    /// row only where it first occurs.
    pub fn union_of(left: QueryResult, right: QueryResult, all: bool) -> (r: Result<QueryResult, DatabaseError>)
        ensures
            compound_outcome("UNION"@, left, right, union_rows(all), r),
    {
        let (mut rows, cols, mut others) = match Self::compound_sides("UNION", left, right) {
            Ok(t) => t,
            Err(e) => return Err(e),
        };
        let ghost l = rows@;
        let ghost o = others@;
        rows.append(&mut others);
        assert(grid(rows@) =~= grid(l) + grid(o));
        let rows = if all { rows } else { Self::distinct_rows(&rows) };
        Ok(QueryResult::Rows(rows, cols))
    }

    /// INTERSECT of the results of two SELECTs (see `compound_outcome` and
    /// `intersect_rows`): the left rows that occur on the right, each once.
    pub fn intersect_of(left: QueryResult, right: QueryResult) -> (r: Result<QueryResult, DatabaseError>)
        ensures
            compound_outcome("INTERSECT"@, left, right, intersect_rows(), r),
    {
        let (rows, cols, others) = match Self::compound_sides("INTERSECT", left, right) {
            Ok(t) => t,
            Err(e) => return Err(e),
        };
        let kept = Self::rows_with(&rows, &others, true);
        Ok(QueryResult::Rows(Self::distinct_rows(&kept), cols))
    }

    /// EXCEPT of the results of two SELECTs (see `compound_outcome` and
    /// `except_rows`): the left rows that do not occur on the right, each once.
    pub fn except_of(left: QueryResult, right: QueryResult) -> (r: Result<QueryResult, DatabaseError>)
        ensures
            compound_outcome("EXCEPT"@, left, right, except_rows(), r),
    {
        let (rows, cols, others) = match Self::compound_sides("EXCEPT", left, right) {
            Ok(t) => t,
            Err(e) => return Err(e),
        };
        let kept = Self::rows_with(&rows, &others, false);
        Ok(QueryResult::Rows(Self::distinct_rows(&kept), cols))
    }
}

} // verus!
