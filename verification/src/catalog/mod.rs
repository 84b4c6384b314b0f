//! Catalog objects and the containers they are kept in.

pub mod names;
pub mod privilege;
pub mod role;
pub mod user;
pub mod formats;
pub mod grants;
pub mod value;
pub mod data_type;
pub mod column;
pub mod row;
pub mod error;
pub mod table;
pub mod database;
pub mod roles_graph;
pub mod server_instance;
pub mod database_metadata;
pub mod table_metadata;
