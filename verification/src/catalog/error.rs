//! The errors the database reports.

use vstd::prelude::*;
use crate::text::{push_str, string_of};

verus! {

/// An error of a catalog or query operation.
#[derive(Clone, Debug, PartialEq)]
pub enum DatabaseError {
    TableNotFound(String),
    TableAlreadyExists(String),
    ColumnNotFound(String),
    ColumnCountMismatch,
    TypeMismatch,
    DatabaseNotFound(String),
    DatabaseAlreadyExists(String),
    UserNotFound(String),
    UserAlreadyExists(String),
    RoleNotFound(String),
    RoleAlreadyExists(String),
    AuthenticationFailed,
    PermissionDenied(String),
    ForeignKeyViolation(String),
    UniqueViolation(String),
    /// An I/O failure, by its message.
    Io(String),
    /// A JSON (de)serialisation failure, by its message.
    Serialization(String),
    BinarySerialization(String),
    ParseError(String),
}

/// The message an error is displayed with.
pub open spec fn error_message(e: DatabaseError) -> Seq<char> {
    match e {
        DatabaseError::TableNotFound(s) => "Table '"@ + s@ + "' not found"@,
        DatabaseError::TableAlreadyExists(s) => "Table '"@ + s@ + "' already exists"@,
        DatabaseError::ColumnNotFound(s) => "Column '"@ + s@ + "' not found"@,
        DatabaseError::ColumnCountMismatch => "Column count mismatch"@,
        DatabaseError::TypeMismatch => "Type mismatch"@,
        DatabaseError::DatabaseNotFound(s) => "Database '"@ + s@ + "' not found"@,
        DatabaseError::DatabaseAlreadyExists(s) => "Database '"@ + s@ + "' already exists"@,
        DatabaseError::UserNotFound(s) => "User '"@ + s@ + "' not found"@,
        DatabaseError::UserAlreadyExists(s) => "User '"@ + s@ + "' already exists"@,
        DatabaseError::RoleNotFound(s) => "Role '"@ + s@ + "' not found"@,
        DatabaseError::RoleAlreadyExists(s) => "Role '"@ + s@ + "' already exists"@,
        DatabaseError::AuthenticationFailed => "Authentication failed"@,
        DatabaseError::PermissionDenied(s) => "Permission denied: "@ + s@,
        DatabaseError::ForeignKeyViolation(s) => "Foreign key constraint violation: "@ + s@,
        DatabaseError::UniqueViolation(s) => "Unique constraint violation: "@ + s@,
        DatabaseError::Io(s) => "IO error: "@ + s@,
        DatabaseError::Serialization(s) => "JSON Serialization error: "@ + s@,
        DatabaseError::BinarySerialization(s) => "Binary Serialization error: "@ + s@,
        DatabaseError::ParseError(s) => "Parse error: "@ + s@,
    }
}

impl DatabaseError {
    /// The message the error is displayed with.
    pub fn message(&self) -> (m: String)
        ensures
            m@ == error_message(*self),
    {
        let mut out: Vec<char> = Vec::new();
        match self {
            DatabaseError::TableNotFound(s) => { push_str(&mut out, "Table '"); push_str(&mut out, s.as_str()); push_str(&mut out, "' not found"); },
            DatabaseError::TableAlreadyExists(s) => { push_str(&mut out, "Table '"); push_str(&mut out, s.as_str()); push_str(&mut out, "' already exists"); },
            DatabaseError::ColumnNotFound(s) => { push_str(&mut out, "Column '"); push_str(&mut out, s.as_str()); push_str(&mut out, "' not found"); },
            DatabaseError::ColumnCountMismatch => push_str(&mut out, "Column count mismatch"),
            DatabaseError::TypeMismatch => push_str(&mut out, "Type mismatch"),
            DatabaseError::DatabaseNotFound(s) => { push_str(&mut out, "Database '"); push_str(&mut out, s.as_str()); push_str(&mut out, "' not found"); },
            DatabaseError::DatabaseAlreadyExists(s) => { push_str(&mut out, "Database '"); push_str(&mut out, s.as_str()); push_str(&mut out, "' already exists"); },
            DatabaseError::UserNotFound(s) => { push_str(&mut out, "User '"); push_str(&mut out, s.as_str()); push_str(&mut out, "' not found"); },
            DatabaseError::UserAlreadyExists(s) => { push_str(&mut out, "User '"); push_str(&mut out, s.as_str()); push_str(&mut out, "' already exists"); },
            DatabaseError::RoleNotFound(s) => { push_str(&mut out, "Role '"); push_str(&mut out, s.as_str()); push_str(&mut out, "' not found"); },
            DatabaseError::RoleAlreadyExists(s) => { push_str(&mut out, "Role '"); push_str(&mut out, s.as_str()); push_str(&mut out, "' already exists"); },
            DatabaseError::AuthenticationFailed => push_str(&mut out, "Authentication failed"),
            DatabaseError::PermissionDenied(s) => { push_str(&mut out, "Permission denied: "); push_str(&mut out, s.as_str()); },
            DatabaseError::ForeignKeyViolation(s) => { push_str(&mut out, "Foreign key constraint violation: "); push_str(&mut out, s.as_str()); },
            DatabaseError::UniqueViolation(s) => { push_str(&mut out, "Unique constraint violation: "); push_str(&mut out, s.as_str()); },
            DatabaseError::Io(s) => { push_str(&mut out, "IO error: "); push_str(&mut out, s.as_str()); },
            DatabaseError::Serialization(s) => { push_str(&mut out, "JSON Serialization error: "); push_str(&mut out, s.as_str()); },
            DatabaseError::BinarySerialization(s) => { push_str(&mut out, "Binary Serialization error: "); push_str(&mut out, s.as_str()); },
            DatabaseError::ParseError(s) => { push_str(&mut out, "Parse error: "); push_str(&mut out, s.as_str()); },
        }
        assert(out@ =~= error_message(*self));
        string_of(&out)
    }
}

} // verus!
