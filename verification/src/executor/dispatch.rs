//! Statements, and which part of the executor answers each.

use vstd::prelude::*;
use crate::catalog::database::Database;
use crate::catalog::error::DatabaseError;
use crate::catalog::value::Value;
use crate::executor::conditions::Condition;
use crate::executor::ddl::{AlterTableOperation, ColumnDef};
use crate::executor::queries::{JoinClause, QueryExecutor, SelectColumn, SortOrder};
use crate::executor::routing::{SelectRoute, route_of};
use crate::executor::views::{view_exists_message, view_names_table_message};
use crate::index::IndexType;
use crate::text::{push_str, string_of};

verus! {

/// Commands the server answers itself; they never reach the executor.
#[derive(Clone, Copy, Debug, PartialEq, Eq, Structural)]
pub enum ServerCommand {
    /// BEGIN, COMMIT, ROLLBACK.
    Transaction,
    /// CREATE, DROP and ALTER USER.
    UserManagement,
    /// CREATE and DROP ROLE, GRANT and REVOKE of roles.
    RoleManagement,
    /// CREATE and DROP DATABASE.
    DatabaseManagement,
    /// GRANT and REVOKE of rights.
    Privileges,
    /// SHOW USERS, SHOW DATABASES.
    Metadata,
}

/// A statement.
#[derive(Debug)]
pub enum Statement {
    CreateTable { name: String, columns: Vec<ColumnDef> },
    DropTable { name: String },
    AlterTable { name: String, operation: AlterTableOperation },
    ShowTables,
    Insert { table: String, columns: Option<Vec<String>>, values: Vec<Value> },
    Update { table: String, assignments: Vec<(String, Value)>, filter: Option<Condition> },
    Delete { from: String, filter: Option<Condition> },
    Select {
        distinct: bool,
        columns: Vec<SelectColumn>,
        from: String,
        joins: Vec<JoinClause>,
        filter: Option<Condition>,
        group_by: Option<Vec<String>>,
        order_by: Option<(String, SortOrder)>,
        limit: Option<usize>,
        offset: Option<usize>,
    },
    Union { left: Box<Statement>, right: Box<Statement>, all: bool },
    Intersect { left: Box<Statement>, right: Box<Statement> },
    Except { left: Box<Statement>, right: Box<Statement> },
    CreateIndex { name: String, table: String, columns: Vec<String>, unique: bool, index_type: IndexType },
    DropIndex { name: String },
    Vacuum { table: Option<String> },
    Explain { statement: Box<Statement> },
    CreateView { name: String, query: String },
    DropView { name: String },
    CreateType { name: String, values: Vec<String> },
    Server(ServerCommand),
}

/// Who answers a statement.
#[derive(Debug, PartialEq)]
pub enum StatementRoute {
    /// `DdlExecutor`: CREATE, DROP and ALTER TABLE, SHOW TABLES, CREATE TYPE.
    Ddl,
    /// `DmlExecutor`: INSERT, UPDATE, DELETE.
    Dml,
    /// A SELECT, by its own route.
    Query(SelectRoute),
    /// UNION, INTERSECT, EXCEPT.
    Compound,
    /// `IndexExecutor`: CREATE and DROP INDEX.
    Index,
    /// `VacuumExecutor`.
    Vacuum,
    /// `ExplainExecutor`.
    Explain,
    /// CREATE VIEW (its name free) and DROP VIEW.
    View,
    /// Refused with this error.
    Refused(DatabaseError),
}

/// The message for a server command that reached the executor.
pub open spec fn server_command_message(c: ServerCommand) -> Seq<char> {
    match c {
        ServerCommand::Transaction => "Transaction commands should not reach executor"@,
        ServerCommand::UserManagement => "User management commands should be handled at server level"@,
        ServerCommand::RoleManagement => "Role management commands should be handled at server level"@,
        ServerCommand::DatabaseManagement => "Database management commands should be handled at server level"@,
        ServerCommand::Privileges => "Privilege management commands should be handled at server level"@,
        ServerCommand::Metadata => "Metadata queries should be handled at server level"@,
    }
}

/// Whether `r` is who answers `stmt` on `db`: each statement goes to its
/// executor; a SELECT goes by `route_of`; CREATE VIEW is refused for a name
/// a view or a table bears; the server's own commands are refused.
pub open spec fn routed(db: Database, stmt: Statement, r: StatementRoute) -> bool {
    match stmt {
        Statement::CreateTable { .. } => r is Ddl,
        Statement::DropTable { .. } => r is Ddl,
        Statement::AlterTable { .. } => r is Ddl,
        Statement::ShowTables => r is Ddl,
        Statement::CreateType { .. } => r is Ddl,
        Statement::Insert { .. } => r is Dml,
        Statement::Update { .. } => r is Dml,
        Statement::Delete { .. } => r is Dml,
        Statement::Select { columns, from, joins, group_by, .. } =>
            r matches StatementRoute::Query(q) && route_of(db, from@, joins@.len() > 0, columns@, group_by is Some, q),
        Statement::Union { .. } => r is Compound,
        Statement::Intersect { .. } => r is Compound,
        Statement::Except { .. } => r is Compound,
        Statement::CreateIndex { .. } => r is Index,
        Statement::DropIndex { .. } => r is Index,
        Statement::Vacuum { .. } => r is Vacuum,
        Statement::Explain { .. } => r is Explain,
        Statement::CreateView { name, .. } => if db.views@.contains_key(name@) {
            r matches StatementRoute::Refused(DatabaseError::ParseError(m)) && m@ == view_exists_message(name@)
        } else if db.tables@.contains_key(name@) {
            r matches StatementRoute::Refused(DatabaseError::ParseError(m)) && m@ == view_names_table_message(name@)
        } else {
            r is View
        },
        Statement::DropView { .. } => r is View,
        Statement::Server(c) => r matches StatementRoute::Refused(DatabaseError::ParseError(m)) && m@ == server_command_message(c),
    }
}

/// The error for a server command that reached the executor.
fn server_command_error(c: ServerCommand) -> (e: DatabaseError)
    ensures
        e matches DatabaseError::ParseError(m) && m@ == server_command_message(c),
{
    let m = match c {
        ServerCommand::Transaction => "Transaction commands should not reach executor",
        ServerCommand::UserManagement => "User management commands should be handled at server level",
        ServerCommand::RoleManagement => "Role management commands should be handled at server level",
        ServerCommand::DatabaseManagement => "Database management commands should be handled at server level",
        ServerCommand::Privileges => "Privilege management commands should be handled at server level",
        ServerCommand::Metadata => "Metadata queries should be handled at server level",
    };
    DatabaseError::ParseError(m.to_owned())
}

/// `prefix`, the name, then `suffix`.
fn named_message(prefix: &str, name: &str, suffix: &str) -> (m: String)
    ensures
        m@ == prefix@ + name@ + suffix@,
{
    let mut out: Vec<char> = Vec::new();
    push_str(&mut out, prefix);
    push_str(&mut out, name);
    push_str(&mut out, suffix);
    string_of(&out)
}

impl QueryExecutor {
    /// Who answers `stmt` on `db` (see `routed`).
    pub fn route_statement(db: &Database, stmt: &Statement) -> (r: StatementRoute)
        requires
            db.wf(),
        ensures
            routed(*db, *stmt, r),
    {
        match stmt {
            Statement::CreateTable { .. } => StatementRoute::Ddl,
            Statement::DropTable { .. } => StatementRoute::Ddl,
            Statement::AlterTable { .. } => StatementRoute::Ddl,
            Statement::ShowTables => StatementRoute::Ddl,
            Statement::CreateType { .. } => StatementRoute::Ddl,
            Statement::Insert { .. } => StatementRoute::Dml,
            Statement::Update { .. } => StatementRoute::Dml,
            Statement::Delete { .. } => StatementRoute::Dml,
            Statement::Select { columns, from, joins, group_by, .. } => {
                let grouped = group_by.is_some();
                StatementRoute::Query(Self::select_route(db, from.as_str(), joins.len() > 0, columns, grouped))
            },
            Statement::Union { .. } => StatementRoute::Compound,
            Statement::Intersect { .. } => StatementRoute::Compound,
            Statement::Except { .. } => StatementRoute::Compound,
            Statement::CreateIndex { .. } => StatementRoute::Index,
            Statement::DropIndex { .. } => StatementRoute::Index,
            Statement::Vacuum { .. } => StatementRoute::Vacuum,
            Statement::Explain { .. } => StatementRoute::Explain,
            Statement::CreateView { name, .. } => {
                if db.views.contains_key(name.as_str()) {
                    StatementRoute::Refused(DatabaseError::ParseError(
                        named_message("View '", name.as_str(), "' already exists"),
                    ))
                } else if db.tables.contains_key(name.as_str()) {
                    StatementRoute::Refused(DatabaseError::ParseError(
                        named_message("Table '", name.as_str(), "' already exists with that name"),
                    ))
                } else {
                    StatementRoute::View
                }
            },
            Statement::DropView { .. } => StatementRoute::View,
            Statement::Server(c) => StatementRoute::Refused(server_command_error(*c)),
        }
    }
}

} // verus!
