//! CREATE VIEW, DROP VIEW and CREATE TYPE.

use vstd::prelude::*;
use crate::catalog::database::{Database, enum_exists_message};
use crate::catalog::error::DatabaseError;
use crate::executor::QueryResult;
use crate::executor::ddl::DdlExecutor;
use crate::text::{push_str, string_of};

verus! {

/// The message for a view defined twice.
pub open spec fn view_exists_message(name: Seq<char>) -> Seq<char> {
    "View '"@ + name + "' already exists"@
}

/// The message for a view named like a table.
pub open spec fn view_names_table_message(name: Seq<char>) -> Seq<char> {
    "Table '"@ + name + "' already exists with that name"@
}

/// The message for a created view.
pub open spec fn view_created_message(name: Seq<char>) -> Seq<char> {
    "View '"@ + name + "' created"@
}

/// The message for a dropped view.
pub open spec fn view_dropped_message(name: Seq<char>) -> Seq<char> {
    "View '"@ + name + "' dropped"@
}

/// The message for dropping a view that is not there.
pub open spec fn no_view_message(name: Seq<char>) -> Seq<char> {
    "View '"@ + name + "' does not exist"@
}

/// The message for a created enumerated type.
pub open spec fn type_created_message(name: Seq<char>) -> Seq<char> {
    "Type '"@ + name + "' created successfully"@
}

/// Everything but the views is as it was.
pub open spec fn same_but_views(a: Database, b: Database) -> bool {
    &&& a.name == b.name
    &&& a.tables == b.tables
    &&& a.enums == b.enums
    &&& a.indexes == b.indexes
    &&& a.table_metadata == b.table_metadata
}

/// `prefix`, the name, then `suffix`.
fn quoted_message(prefix: &str, name: &str, suffix: &str) -> (m: String)
    ensures
        m@ == prefix@ + name@ + suffix@,
{
    let mut out: Vec<char> = Vec::new();
    push_str(&mut out, prefix);
    push_str(&mut out, name);
    push_str(&mut out, suffix);
    string_of(&out)
}

impl DdlExecutor {
    /// CREATE VIEW `name` AS `query`. `parsed` is what parsing `query` gave:
    /// nothing, or the parser's message. A view or table of that name is
    /// refused first, then a query that did not parse; otherwise the view is
    /// stored.
    pub fn create_view(db: &mut Database, name: String, query: String, parsed: Result<(), String>)
        -> (r: Result<QueryResult, DatabaseError>)
        requires
            old(db).wf(),
        ensures
            final(db).wf(),
            old(db).views@.contains_key(name@) ==> *final(db) == *old(db)
                && (r matches Err(DatabaseError::ParseError(m)) && m@ == view_exists_message(name@)),
            !old(db).views@.contains_key(name@) && old(db).tables@.contains_key(name@) ==> *final(db) == *old(db)
                && (r matches Err(DatabaseError::ParseError(m)) && m@ == view_names_table_message(name@)),
            !old(db).views@.contains_key(name@) && !old(db).tables@.contains_key(name@) ==> match parsed {
                Err(p) => *final(db) == *old(db) && (r matches Err(DatabaseError::ParseError(m)) && m == p),
                Ok(_) => same_but_views(*final(db), *old(db))
                    && final(db).views@ == old(db).views@.insert(name@, query)
                    && (r matches Ok(QueryResult::Success(m)) && m@ == view_created_message(name@)),
            },
    {
        if db.views.contains_key(name.as_str()) {
            return Err(DatabaseError::ParseError(quoted_message("View '", name.as_str(), "' already exists")));
        }
        if db.tables.contains_key(name.as_str()) {
            return Err(DatabaseError::ParseError(
                quoted_message("Table '", name.as_str(), "' already exists with that name"),
            ));
        }
        if let Err(m) = parsed {
            return Err(DatabaseError::ParseError(m));
        }
        let message = quoted_message("View '", name.as_str(), "' created");
        db.views.insert(name, query);
        Ok(QueryResult::Success(message))
    }

    /// DROP VIEW `name`: the view is removed, or refused when there is none.
    pub fn drop_view(db: &mut Database, name: String) -> (r: Result<QueryResult, DatabaseError>)
        requires
            old(db).wf(),
        ensures
            final(db).wf(),
            same_but_views(*final(db), *old(db)),
            final(db).views@ == old(db).views@.remove(name@),
            old(db).views@.contains_key(name@) ==> (r matches Ok(QueryResult::Success(m)) && m@ == view_dropped_message(name@)),
            !old(db).views@.contains_key(name@) ==> *final(db) == *old(db)
                && (r matches Err(DatabaseError::ParseError(m)) && m@ == no_view_message(name@)),
    {
        match db.views.remove(name.as_str()) {
            Some(_) => Ok(QueryResult::Success(quoted_message("View '", name.as_str(), "' dropped"))),
            None => Err(DatabaseError::ParseError(quoted_message("View '", name.as_str(), "' does not exist"))),
        }
    }

    /// CREATE TYPE `name` AS ENUM (`values`): the type is defined, or refused
    /// when one of that name exists.
    pub fn create_type(db: &mut Database, name: String, values: Vec<String>) -> (r: Result<QueryResult, DatabaseError>)
        requires
            old(db).wf(),
        ensures
            final(db).wf(),
            old(db).enums@.contains_key(name@) ==> *final(db) == *old(db)
                && (r matches Err(DatabaseError::ParseError(m)) && m@ == enum_exists_message(name@)),
            !old(db).enums@.contains_key(name@) ==> final(db).enums@ == old(db).enums@.insert(name@, values)
                && final(db).tables == old(db).tables
                && final(db).indexes == old(db).indexes
                && final(db).views == old(db).views
                && final(db).table_metadata == old(db).table_metadata
                && final(db).name == old(db).name
                && (r matches Ok(QueryResult::Success(m)) && m@ == type_created_message(name@)),
    {
        let message = quoted_message("Type '", name.as_str(), "' created successfully");
        match db.create_enum(name, values) {
            Ok(()) => Ok(QueryResult::Success(message)),
            Err(e) => Err(e),
        }
    }
}

} // verus!
