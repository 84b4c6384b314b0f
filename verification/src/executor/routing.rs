//! Which part of the executor answers a SELECT.

use vstd::prelude::*;
use crate::catalog::database::Database;
use crate::executor::queries::{QueryExecutor, SelectColumn};
use crate::executor::system_catalogs::{SystemCatalog, catalog_name};

verus! {

/// Who answers a SELECT.
#[derive(Debug, PartialEq)]
pub enum SelectRoute {
    /// A system catalog (`SystemCatalog::query`).
    SystemCatalog,
    /// A view: its stored query, parsed and run in the SELECT's place.
    View(String),
    /// A SELECT with a JOIN (`select_with_join`).
    Join,
    /// A SELECT with GROUP BY (`select_with_group_by`).
    Grouped,
    /// A SELECT of aggregates without GROUP BY (`select_aggregate`).
    Aggregate,
    /// Any other SELECT (`select_regular`).
    Regular,
}

/// Whether an aggregate is among the selected columns.
pub open spec fn has_aggregate(columns: Seq<SelectColumn>) -> bool {
    exists|i: int| 0 <= i < columns.len() && (#[trigger] columns[i]) is Aggregate
}

/// The route of a SELECT from `from`: system catalogs first, then views,
/// then JOIN, GROUP BY, aggregates, in that order.
pub open spec fn route_of(db: Database, from: Seq<char>, has_joins: bool, columns: Seq<SelectColumn>, grouped: bool,
    r: SelectRoute) -> bool {
    if catalog_name(from) {
        r is SystemCatalog
    } else if db.views@.contains_key(from) {
        r matches SelectRoute::View(q) && q@ == db.views@[from]@
    } else if has_joins {
        r is Join
    } else if grouped {
        r is Grouped
    } else if has_aggregate(columns) {
        r is Aggregate
    } else {
        r is Regular
    }
}

impl QueryExecutor {
    /// Which part of the executor answers a SELECT from `from` with these
    /// columns, with or without JOINs and GROUP BY (see `route_of`).
    pub fn select_route(db: &Database, from: &str, has_joins: bool, columns: &Vec<SelectColumn>, grouped: bool)
        -> (r: SelectRoute)
        requires
            db.wf(),
        ensures
            route_of(*db, from@, has_joins, columns@, grouped, r),
    {
        if SystemCatalog::is_system_catalog(from) {
            return SelectRoute::SystemCatalog;
        }
        if let Some(q) = db.views.get(from) {
            return SelectRoute::View(q.as_str().to_owned());
        }
        if has_joins {
            return SelectRoute::Join;
        }
        if grouped {
            return SelectRoute::Grouped;
        }
        let mut i: usize = 0;
        while i < columns.len()
            invariant
                i <= columns@.len(),
                !catalog_name(from@),
                !db.views@.contains_key(from@),
                !has_joins,
                !grouped,
                forall|k: int| 0 <= k < i ==> !((#[trigger] columns@[k]) is Aggregate),
            decreases columns@.len() - i,
        {
            if let SelectColumn::Aggregate(_) = &columns[i] {
                assert(columns@[i as int] is Aggregate);
                return SelectRoute::Aggregate;
            }
            i = i + 1;
        }
        SelectRoute::Regular
    }
}

} // verus!
