//! Subqueries: the outer row a correlated subquery sees, and what a scalar,
//! EXISTS or IN subquery makes of the rows its SELECT answered.

use vstd::prelude::*;
use crate::catalog::error::DatabaseError;
use crate::catalog::value::Value;
use crate::executor::QueryResult;
use crate::executor::explain::{first_where, lemma_first_where_found};
use crate::executor::queries::{QueryExecutor, is_name};
use crate::text::string_views;

verus! {

/// The outer query's row, for correlated subqueries.
#[derive(Debug)]
pub struct SubqueryContext {
    /// The outer query's column names.
    pub outer_columns: Vec<String>,
    /// The outer query's current row.
    pub outer_row: Vec<Value>,
}

impl SubqueryContext {
    /// A context without an outer row.
    pub fn new() -> (c: Self)
        ensures
            c.outer_columns@.len() == 0,
            c.outer_row@.len() == 0,
    {
        SubqueryContext { outer_columns: Vec::new(), outer_row: Vec::new() }
    }

    /// A context with the outer query's columns and current row.
    pub fn with_outer_row(columns: Vec<String>, row: Vec<Value>) -> (c: Self)
        ensures
            c.outer_columns == columns,
            c.outer_row == row,
    {
        SubqueryContext { outer_columns: columns, outer_row: row }
    }

    /// The outer row's value in the first column named `col_name`, if the
    /// column exists and the row reaches it.
    pub fn get_outer_value(&self, col_name: &str) -> (r: Option<&Value>)
        ensures
            match first_where(string_views(self.outer_columns@), is_name(col_name@)) {
                Some(i) => if i < self.outer_row@.len() { r == Some(&self.outer_row@[i]) } else { r is None },
                None => r is None,
            },
    {
        let ghost found = first_where(string_views(self.outer_columns@), is_name(col_name@));
        proof {
            lemma_first_where_found(string_views(self.outer_columns@), is_name(col_name@));
        }
        let n = self.outer_columns.len();
        match QueryExecutor::name_position(&self.outer_columns, col_name) {
            Some(i) => {
                assert(found matches Some(k) && k < n && i as int == k);
                if i < self.outer_row.len() { Some(&self.outer_row[i]) } else { None }
            },
            None => None,
        }
    }
}

impl Default for SubqueryContext {
    fn default() -> (c: Self)
        ensures
            c.outer_columns@.len() == 0,
            c.outer_row@.len() == 0,
    {
        Self::new()
    }
}

/// The message for a scalar subquery without rows.
pub open spec fn no_row_message() -> Seq<char> {
    "Scalar subquery returned no rows"@
}

/// The message for a scalar subquery with several rows.
pub open spec fn too_many_rows_message() -> Seq<char> {
    "Scalar subquery returned more than one row"@
}

/// The message for a scalar subquery with several columns.
pub open spec fn too_many_columns_message() -> Seq<char> {
    "Scalar subquery returned more than one column"@
}

/// The message for a scalar subquery that answered no rows at all.
pub open spec fn no_rows_message() -> Seq<char> {
    "Scalar subquery did not return rows"@
}

/// Makes subquery results usable by the outer query.
pub struct SubqueryExecutor;

impl SubqueryExecutor {
    /// The value of a scalar subquery from what its SELECT answered: the
    /// single cell, as text, for one row of one column; refused for no row,
    /// for several rows, then for several columns.
    pub fn scalar_of(result: QueryResult) -> (r: Result<Value, DatabaseError>)
        requires
            result matches QueryResult::Rows(rows, _) ==> forall|i: int| 0 <= i < rows@.len() ==> (#[trigger] rows@[i])@.len() > 0,
        ensures
            match result {
                QueryResult::Rows(rows, cols) => if rows@.len() == 0 {
                    r matches Err(DatabaseError::ParseError(m)) && m@ == no_row_message()
                } else if rows@.len() > 1 {
                    r matches Err(DatabaseError::ParseError(m)) && m@ == too_many_rows_message()
                } else if cols@.len() > 1 {
                    r matches Err(DatabaseError::ParseError(m)) && m@ == too_many_columns_message()
                } else {
                    r matches Ok(Value::Text(s)) && s@ == rows@[0]@[0]@
                },
                QueryResult::Success(_) => r matches Err(DatabaseError::ParseError(m)) && m@ == no_rows_message(),
            },
    {
        match result {
            QueryResult::Rows(rows, columns) => {
                if rows.len() == 0 {
                    return Err(DatabaseError::ParseError("Scalar subquery returned no rows".to_owned()));
                }
                if rows.len() > 1 {
                    return Err(DatabaseError::ParseError("Scalar subquery returned more than one row".to_owned()));
                }
                if columns.len() > 1 {
                    return Err(DatabaseError::ParseError("Scalar subquery returned more than one column".to_owned()));
                }
                assert(rows@[0]@.len() > 0);
                Ok(Value::Text(rows[0][0].clone()))
            },
            QueryResult::Success(_) => Err(DatabaseError::ParseError("Scalar subquery did not return rows".to_owned())),
        }
    }

    /// Whether an EXISTS subquery holds, from what its SELECT answered: some row.
    pub fn exists_of(result: &QueryResult) -> (b: bool)
        ensures
            b == (result matches QueryResult::Rows(rows, _) && rows@.len() > 0),
    {
        match result {
            QueryResult::Rows(rows, _) => rows.len() > 0,
            QueryResult::Success(_) => false,
        }
    }

    /// The values of an IN subquery, from what its SELECT answered: the first
    /// cell of each row, as text; none when there are no columns.
    pub fn in_list_of(result: &QueryResult) -> (r: Vec<Value>)
        requires
            result matches QueryResult::Rows(rows, cols) ==> (cols@.len() > 0
                ==> forall|i: int| 0 <= i < rows@.len() ==> (#[trigger] rows@[i])@.len() > 0),
        ensures
            match *result {
                QueryResult::Rows(rows, cols) => if cols@.len() == 0 {
                    r@.len() == 0
                } else {
                    r@.len() == rows@.len() && forall|i: int| 0 <= i < rows@.len()
                        ==> ((#[trigger] r@[i]) matches Value::Text(s) && s@ == rows@[i]@[0]@)
                },
                QueryResult::Success(_) => r@.len() == 0,
            },
    {
        match result {
            QueryResult::Rows(rows, columns) => {
                let mut out: Vec<Value> = Vec::new();
                if columns.len() == 0 {
                    return out;
                }
                let mut i: usize = 0;
                while i < rows.len()
                    invariant
                        i <= rows@.len(),
                        forall|k: int| 0 <= k < rows@.len() ==> (#[trigger] rows@[k])@.len() > 0,
                        out@.len() == i,
                        forall|k: int| 0 <= k < i ==> ((#[trigger] out@[k]) matches Value::Text(s) && s@ == rows@[k]@[0]@),
                    decreases rows@.len() - i,
                {
                    assert(rows@[i as int]@.len() > 0);
                    out.push(Value::Text(rows[i][0].clone()));
                    i = i + 1;
                }
                out
            },
            QueryResult::Success(_) => Vec::new(),
        }
    }
}

} // verus!
