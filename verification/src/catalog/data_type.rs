//! Column types.

use vstd::prelude::*;

verus! {

/// The type of a column.
#[derive(Clone, Debug, PartialEq)]
pub enum DataType {
    SmallInt,
    Integer,
    Real,
    /// NUMERIC(precision, scale).
    Numeric { precision: u8, scale: u8 },
    /// Auto-incrementing INTEGER.
    Serial,
    /// Auto-incrementing BIGINT.
    BigSerial,
    Text,
    /// VARCHAR(n).
    Varchar { max_length: usize },
    /// CHAR(n).
    Char { length: usize },
    Boolean,
    Date,
    Timestamp,
    TimestampTz,
    Uuid,
    Json,
    /// Binary JSON, stored as JSON.
    Jsonb,
    Bytea,
    /// An enumerated type with its labels.
    Enum { name: String, values: Vec<String> },
}

/// Whether the type draws its values from a sequence.
pub open spec fn is_serial(t: DataType) -> bool {
    t is Serial || t is BigSerial
}

} // verus!
