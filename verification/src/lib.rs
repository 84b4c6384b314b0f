//! A PostgreSQL-style relational database core: catalog objects, access control,
//! row visibility, secondary indexes and the query-side helpers built on them.

pub mod catalog;
pub mod text;
pub mod index;
pub mod executor;
pub mod settings;
pub mod restore;
pub mod dump;
pub mod cli;
