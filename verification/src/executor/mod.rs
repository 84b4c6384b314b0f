//! Query-side logic over the catalog: condition evaluation, plans, index
//! maintenance, system catalogs and functions, and vacuuming.

pub mod conditions;
pub mod explain;
pub mod indexes;
pub mod ddl;
pub mod dml;
pub mod system_catalogs;
pub mod system_functions;
pub mod vacuum;
pub mod queries;
pub mod window;
pub mod subquery;
pub mod compound;
pub mod routing;
pub mod views;
pub mod dispatch;

use vstd::prelude::*;

verus! {

/// The outcome of a statement.
#[derive(Clone, Debug, PartialEq)]
pub enum QueryResult {
    /// A message.
    Success(String),
    /// Result rows, each a list of rendered values, and the column names.
    Rows(Vec<Vec<String>>, Vec<String>),
}

} // verus!
