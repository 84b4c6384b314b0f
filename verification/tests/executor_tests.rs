use postgrustql::catalog::column::{Column, ForeignKey};
use postgrustql::catalog::data_type::DataType;
use postgrustql::catalog::database::Database;
use postgrustql::catalog::error::DatabaseError;
use postgrustql::catalog::names::NameMap;
use postgrustql::catalog::row::Row;
use postgrustql::catalog::table::Table;
use postgrustql::catalog::value::Value;
use postgrustql::executor::QueryResult;
use postgrustql::executor::conditions::Condition;
use postgrustql::executor::ddl::{AlterTableOperation, ColumnDef, DdlExecutor};
use postgrustql::executor::dml::DmlExecutor;
use postgrustql::executor::explain::ExplainExecutor;
use postgrustql::executor::indexes::IndexExecutor;
use postgrustql::executor::system_catalogs::SystemCatalog;
use postgrustql::executor::system_functions::{HostInfo, SystemFunctions};
use postgrustql::executor::vacuum::VacuumExecutor;
use postgrustql::index::IndexType;

fn column(name: &str, data_type: DataType, nullable: bool, primary_key: bool) -> Column {
    Column { name: name.to_string(), data_type, nullable, primary_key, unique: false, foreign_key: None }
}

fn host() -> HostInfo {
    HostInfo { os: "linux".to_string(), arch: "x86_64".to_string(), pid: 4242 }
}

fn rows_of(result: Result<QueryResult, DatabaseError>) -> (Vec<Vec<String>>, Vec<String>) {
    match result.unwrap() {
        QueryResult::Rows(rows, cols) => (rows, cols),
        _ => panic!("Expected Rows"),
    }
}

fn message_of(result: Result<QueryResult, DatabaseError>) -> String {
    match result.unwrap() {
        QueryResult::Success(m) => m,
        _ => panic!("Expected Success"),
    }
}

fn version_row(values: Vec<Value>, xmin: u64, xmax: Option<u64>) -> Row {
    Row { values, xmin, xmax }
}

// ---- system catalogs ----

#[test]
fn test_is_system_catalog() {
    assert!(SystemCatalog::is_system_catalog("pg_catalog.pg_class"));
    assert!(SystemCatalog::is_system_catalog("pg_catalog.pg_database"));
    assert!(SystemCatalog::is_system_catalog("pg_database"));
    assert!(SystemCatalog::is_system_catalog("information_schema.tables"));
    assert!(!SystemCatalog::is_system_catalog("users"));
}

#[test]
fn test_pg_database() {
    let db = Database::new("testdb".to_string());
    let (rows, cols) = rows_of(SystemCatalog::pg_database(&db));
    assert_eq!(cols, vec!["oid", "datname", "datdba", "encoding"]);
    assert_eq!(rows.len(), 1);
    assert_eq!(rows[0][1], "testdb");
    assert_eq!(rows[0][2], "10");
    assert_eq!(rows[0][3], "UTF8");
}

#[test]
fn test_pg_namespace() {
    let (rows, cols) = rows_of(SystemCatalog::pg_namespace());
    assert_eq!(cols, vec!["oid", "nspname"]);
    assert_eq!(rows.len(), 2);
    assert_eq!(rows[0], vec!["11", "pg_catalog"]);
    assert_eq!(rows[1], vec!["2200", "public"]);
}

#[test]
fn test_pg_type() {
    let (rows, cols) = rows_of(SystemCatalog::pg_type());
    assert_eq!(cols, vec!["oid", "typname", "typlen"]);
    assert!(rows.len() >= 16);
    assert!(rows.iter().any(|r| r[1] == "bool" && r[0] == "16"));
    assert!(rows.iter().any(|r| r[1] == "text" && r[0] == "25"));
}

#[test]
fn test_pg_class() {
    let mut db = Database::new("test".to_string());
    let table = Table::new("users".to_string(), vec![column("id", DataType::Integer, false, true)]);
    db.create_table(table).unwrap();
    let (rows, cols) = rows_of(SystemCatalog::pg_class(&db));
    assert_eq!(cols, vec!["oid", "relname", "relnamespace", "relkind", "relowner"]);
    assert_eq!(rows.len(), 1);
    assert_eq!(rows[0][1], "users");
    assert_eq!(rows[0][2], "2200");
    assert_eq!(rows[0][3], "r");
    assert_eq!(rows[0][4], "10");
}

#[test]
fn test_pg_attribute() {
    let mut db = Database::new("test".to_string());
    let table = Table::new(
        "users".to_string(),
        vec![column("id", DataType::Integer, false, true), column("name", DataType::Text, true, false)],
    );
    db.create_table(table).unwrap();
    let (rows, cols) = rows_of(SystemCatalog::pg_attribute(&db));
    assert_eq!(cols, vec!["attrelid", "attname", "atttypid", "attnum", "attnotnull"]);
    assert_eq!(rows.len(), 2);
    assert_eq!(rows[0][1], "id");
    assert_eq!(rows[0][2], "23");
    assert_eq!(rows[0][3], "1");
    assert_eq!(rows[0][4], "true");
    assert_eq!(rows[1][1], "name");
    assert_eq!(rows[1][2], "25");
    assert_eq!(rows[1][4], "false");
}

#[test]
fn test_information_schema_tables() {
    let mut db = Database::new("test".to_string());
    db.create_table(Table::new("users".to_string(), vec![])).unwrap();
    let (rows, cols) = rows_of(SystemCatalog::information_schema_tables(&db));
    assert_eq!(cols, vec!["table_catalog", "table_schema", "table_name", "table_type"]);
    assert_eq!(rows.len(), 1);
    assert_eq!(rows[0][2], "users");
    assert_eq!(rows[0][3], "BASE TABLE");
}

#[test]
fn test_information_schema_columns() {
    let mut db = Database::new("test".to_string());
    let table = Table::new("users".to_string(), vec![column("id", DataType::Integer, false, true)]);
    db.create_table(table).unwrap();
    let (rows, cols) = rows_of(SystemCatalog::information_schema_columns(&db));
    assert_eq!(
        cols,
        vec!["table_catalog", "table_schema", "table_name", "column_name", "ordinal_position", "is_nullable", "data_type"]
    );
    assert_eq!(rows.len(), 1);
    assert_eq!(rows[0][2], "users");
    assert_eq!(rows[0][3], "id");
    assert_eq!(rows[0][4], "1");
    assert_eq!(rows[0][5], "NO");
    assert_eq!(rows[0][6], "integer");
}

#[test]
fn catalog_query_dispatches_by_name_and_refuses_others() {
    let db = Database::new("shop".to_string());
    let (rows, _) = rows_of(SystemCatalog::query("pg_catalog.pg_database", &db));
    assert_eq!(rows[0][1], "shop");
    let (rows, _) = rows_of(SystemCatalog::query("pg_namespace", &db));
    assert_eq!(rows.len(), 2);
    assert_eq!(SystemCatalog::query("orders", &db), Err(DatabaseError::TableNotFound("orders".to_string())));
    assert!(SystemCatalog::query("PG_NAMESPACE", &db).is_err());
}

#[test]
fn type_oids_and_sql_names() {
    assert_eq!(SystemCatalog::data_type_to_oid(&DataType::Boolean), 16);
    assert_eq!(SystemCatalog::data_type_to_oid(&DataType::Text), 25);
    assert_eq!(SystemCatalog::data_type_to_oid(&DataType::Integer), 23);
    assert_eq!(SystemCatalog::data_type_to_sql_name(&DataType::Integer), "integer");
    assert_eq!(SystemCatalog::data_type_to_sql_name(&DataType::Text), "text");
}

// ---- system functions ----

#[test]
fn test_is_system_function() {
    assert!(SystemFunctions::is_system_function("version"));
    assert!(SystemFunctions::is_system_function("VERSION"));
    assert!(SystemFunctions::is_system_function("current_database"));
    assert!(SystemFunctions::is_system_function("pg_table_size"));
    assert!(!SystemFunctions::is_system_function("foobar"));
}

#[test]
fn test_version() {
    let version = SystemFunctions::version(&host());
    assert!(version.contains("RustDB 2.0.0"));
    assert!(version.contains("Rust/LLVM"));
}

#[test]
fn version_names_the_host() {
    assert_eq!(SystemFunctions::version(&host()), "RustDB 2.0.0 on linux-x86_64, Rust/LLVM");
}

#[test]
fn test_current_database() {
    let db = Database::new("test_db".to_string());
    let result = SystemFunctions::evaluate("current_database", &vec![], &db, None, &host()).unwrap();
    assert_eq!(result, "test_db");
}

#[test]
fn test_current_schema() {
    let db = Database::new("test".to_string());
    let result = SystemFunctions::evaluate("current_schema", &vec![], &db, None, &host()).unwrap();
    assert_eq!(result, "public");
}

#[test]
fn test_current_user() {
    let db = Database::new("test".to_string());
    let result = SystemFunctions::evaluate("current_user", &vec![], &db, None, &host()).unwrap();
    assert_eq!(result, "rustdb");
}

#[test]
fn backend_pid_is_the_hosts_pid() {
    let db = Database::new("test".to_string());
    let result = SystemFunctions::evaluate("pg_backend_pid", &vec![], &db, None, &host()).unwrap();
    assert_eq!(result, "4242");
}

#[test]
fn test_pg_table_size() {
    let mut db = Database::new("test".to_string());
    let table = Table::new(
        "users".to_string(),
        vec![column("id", DataType::Integer, false, true), column("name", DataType::Text, false, false)],
    );
    db.create_table(table).unwrap();
    let result = SystemFunctions::evaluate("pg_table_size", &vec!["users".to_string()], &db, None, &host()).unwrap();
    let size: usize = result.parse().unwrap();
    assert!(size > 0);
}

#[test]
fn table_size_of_an_empty_table_is_a_hundred_rows_of_schema() {
    let mut db = Database::new("test".to_string());
    let table = Table::new(
        "users".to_string(),
        vec![column("id", DataType::Integer, false, true), column("name", DataType::Text, false, false)],
    );
    db.create_table(table).unwrap();
    // (4 + 50 + 24) bytes a row, a hundred rows.
    let result = SystemFunctions::evaluate("pg_table_size", &vec!["'users'".to_string()], &db, None, &host()).unwrap();
    assert_eq!(result, "7800");
    let paged = SystemFunctions::evaluate("pg_table_size", &vec!["users".to_string()], &db, Some(Some(3)), &host()).unwrap();
    assert_eq!(paged, "24576");
}

#[test]
fn test_pg_table_size_unknown_table() {
    let db = Database::new("test".to_string());
    let result = SystemFunctions::evaluate("pg_table_size", &vec!["nonexistent".to_string()], &db, None, &host());
    assert!(result.is_err());
}

#[test]
fn unknown_system_function_is_an_error() {
    let db = Database::new("test".to_string());
    let result = SystemFunctions::evaluate("foobar", &vec![], &db, None, &host());
    assert_eq!(result, Err(DatabaseError::ParseError("Unknown system function: foobar".to_string())));
    let missing = SystemFunctions::evaluate("pg_table_size", &vec![], &db, None, &host());
    assert_eq!(missing, Err(DatabaseError::ParseError("pg_table_size() requires table name argument".to_string())));
}

#[test]
fn test_estimate_row_size() {
    let table = Table::new(
        "test".to_string(),
        vec![column("id", DataType::Integer, false, true), column("name", DataType::Varchar { max_length: 100 }, false, false)],
    );
    let size = SystemFunctions::estimate_row_size(&table);
    assert_eq!(size, 4 + 100 + 24);
}

// ---- DML ----

#[test]
fn test_reorder_values() {
    let columns = vec![column("id", DataType::Integer, false, false), column("name", DataType::Text, false, false)];
    let result = DmlExecutor::reorder_values(
        &columns,
        Some(vec!["name".to_string(), "id".to_string()]),
        vec![Value::Text("Alice".to_string()), Value::Integer(1)],
    )
    .unwrap();
    assert_eq!(result[0], Value::Integer(1));
    assert_eq!(result[1], Value::Text("Alice".to_string()));
}

#[test]
fn reorder_values_refuses_an_unknown_column() {
    let columns = vec![column("id", DataType::Integer, false, false)];
    let result = DmlExecutor::reorder_values(&columns, Some(vec!["age".to_string()]), vec![Value::Integer(3)]);
    assert_eq!(result, Err(DatabaseError::ParseError("Unknown column: age".to_string())));
}

#[test]
fn reorder_values_fills_missing_columns_with_null() {
    let columns = vec![column("id", DataType::Integer, false, false), column("name", DataType::Text, true, false)];
    let result = DmlExecutor::reorder_values(&columns, Some(vec!["id".to_string()]), vec![Value::Integer(7)]).unwrap();
    assert_eq!(result, vec![Value::Integer(7), Value::Null]);
}

#[test]
fn test_handle_serial_columns() {
    let columns = vec![column("id", DataType::Serial, false, false), column("name", DataType::Text, false, false)];
    let mut sequences = NameMap::new();
    sequences.insert("id".to_string(), 5);
    let mut values = vec![Value::Null, Value::Text("Alice".to_string())];
    DmlExecutor::handle_serial_columns(&columns, &sequences, &mut values);
    assert_eq!(values[0], Value::Integer(5));
    assert_eq!(values[1], Value::Text("Alice".to_string()));
}

#[test]
fn serial_without_a_sequence_starts_at_one() {
    let columns = vec![column("id", DataType::Serial, false, false)];
    let sequences: NameMap<i64> = NameMap::new();
    let mut values = vec![Value::Null];
    DmlExecutor::handle_serial_columns(&columns, &sequences, &mut values);
    assert_eq!(values, vec![Value::Integer(1)]);
}

fn users_db() -> Database {
    let mut db = Database::new("test".to_string());
    let table = Table::new(
        "users".to_string(),
        vec![column("id", DataType::Serial, false, true), column("name", DataType::Varchar { max_length: 5 }, false, false)],
    );
    db.create_table(table).unwrap();
    db
}

#[test]
fn insert_fills_serials_and_advances_the_sequence() {
    let mut db = users_db();
    let r = DmlExecutor::insert_with_storage(&mut db, "users", Some(vec!["name".to_string()]), vec![Value::Text("Ann".to_string())], 3);
    assert_eq!(message_of(r), "1 row inserted");
    let r = DmlExecutor::insert_with_storage(&mut db, "users", Some(vec!["name".to_string()]), vec![Value::Text("Bob".to_string())], 4);
    assert!(r.is_ok());
    let t = db.get_table("users").unwrap();
    assert_eq!(t.rows.len(), 2);
    assert_eq!(t.rows[0].values, vec![Value::Integer(1), Value::Text("Ann".to_string())]);
    assert_eq!(t.rows[1].values, vec![Value::Integer(2), Value::Text("Bob".to_string())]);
    assert_eq!(t.rows[0].xmin, 3);
    assert_eq!(t.rows[1].xmin, 4);
}

#[test]
fn insert_refusals_leave_the_database_unchanged() {
    let mut db = users_db();
    let r = DmlExecutor::insert_with_storage(&mut db, "users", Some(vec!["name".to_string()]), vec![Value::Text("Bartholomew".to_string())], 3);
    assert_eq!(
        r,
        Err(DatabaseError::ParseError("Value too long for column 'name': 11 exceeds VARCHAR(5)".to_string()))
    );
    let r = DmlExecutor::insert_with_storage(&mut db, "orders", None, vec![Value::Integer(1)], 3);
    assert_eq!(r, Err(DatabaseError::TableNotFound("orders".to_string())));
    let r = DmlExecutor::insert_with_storage(&mut db, "users", Some(vec!["age".to_string()]), vec![Value::Integer(1)], 3);
    assert_eq!(r, Err(DatabaseError::ParseError("Unknown column: age".to_string())));
    assert_eq!(db.get_table("users").unwrap().rows.len(), 0);
}

#[test]
fn insert_refuses_a_duplicate_primary_key() {
    let mut db = users_db();
    DmlExecutor::insert_with_storage(&mut db, "users", None, vec![Value::Integer(9), Value::Text("Ann".to_string())], 3).unwrap();
    let r = DmlExecutor::insert_with_storage(&mut db, "users", None, vec![Value::Integer(9), Value::Text("Bob".to_string())], 4);
    assert_eq!(
        r,
        Err(DatabaseError::UniqueViolation("UNIQUE constraint violation: value Integer(9) already exists in column 'id'".to_string()))
    );
}

#[test]
fn insert_checks_foreign_keys() {
    let mut db = users_db();
    DmlExecutor::insert_with_storage(&mut db, "users", None, vec![Value::Integer(1), Value::Text("Ann".to_string())], 3).unwrap();
    let mut owner = column("owner", DataType::Integer, false, false);
    owner.foreign_key = Some(ForeignKey { referenced_table: "users".to_string(), referenced_column: "id".to_string() });
    db.create_table(Table::new("pets".to_string(), vec![owner])).unwrap();
    assert!(DmlExecutor::insert_with_storage(&mut db, "pets", None, vec![Value::Integer(1)], 5).is_ok());
    let r = DmlExecutor::insert_with_storage(&mut db, "pets", None, vec![Value::Integer(2)], 6);
    assert_eq!(
        r,
        Err(DatabaseError::ForeignKeyViolation(
            "Foreign key constraint violation: value Integer(2) not found in users.id".to_string()
        ))
    );
}

fn people_table() -> Table {
    let mut t = Table::new(
        "people".to_string(),
        vec![column("id", DataType::Integer, false, true), column("age", DataType::Integer, false, false)],
    );
    t.rows.push(version_row(vec![Value::Integer(1), Value::Integer(30)], 1, None));
    t.rows.push(version_row(vec![Value::Integer(2), Value::Integer(40)], 1, None));
    t.rows.push(version_row(vec![Value::Integer(3), Value::Integer(50)], 1, None));
    t
}

#[test]
fn update_marks_old_versions_and_appends_new_ones() {
    let mut t = people_table();
    let filter = Some(Condition::GreaterThan("age".to_string(), Value::Integer(35)));
    let r = DmlExecutor::update_with_storage(&mut t, vec![("age".to_string(), Value::Integer(0))], filter, 7);
    assert_eq!(message_of(r), "2 row(s) updated");
    assert_eq!(t.rows.len(), 5);
    assert_eq!(t.rows[0].xmax, None);
    assert_eq!(t.rows[1].xmax, Some(7));
    assert_eq!(t.rows[2].xmax, Some(7));
    assert_eq!(t.rows[3].values, vec![Value::Integer(2), Value::Integer(0)]);
    assert_eq!(t.rows[4].values, vec![Value::Integer(3), Value::Integer(0)]);
    assert_eq!(t.rows[3].xmin, 7);
}

#[test]
fn delete_marks_the_selected_versions() {
    let mut t = people_table();
    let filter = Some(Condition::Equals("id".to_string(), Value::Integer(2)));
    let r = DmlExecutor::delete_with_storage(&mut t, filter, 8);
    assert_eq!(message_of(r), "1 row(s) deleted");
    assert_eq!(t.rows.len(), 3);
    assert_eq!(t.rows[1].xmax, Some(8));
    assert_eq!(t.rows[0].xmax, None);
    let r = DmlExecutor::delete_with_storage(&mut t, None, 9);
    assert_eq!(message_of(r), "2 row(s) deleted");
}

// ---- VACUUM ----

fn id_table(name: &str, rows: Vec<Row>) -> Table {
    let mut t = Table::new(name.to_string(), vec![column("id", DataType::Integer, false, false)]);
    t.rows = rows;
    t
}

#[test]
fn test_vacuum_removes_dead_tuples() {
    let mut db = Database::new("test".to_string());
    let rows = vec![
        version_row(vec![Value::Integer(1)], 100, None),
        version_row(vec![Value::Integer(2)], 100, Some(150)),
        version_row(vec![Value::Integer(3)], 100, Some(160)),
    ];
    db.create_table(id_table("users", rows)).unwrap();
    assert_eq!(db.get_table("users").unwrap().rows.len(), 3);
    let result = VacuumExecutor::vacuum(&mut db, Some("users".to_string()), 201);
    assert!(result.is_ok());
    let rows = &db.get_table("users").unwrap().rows;
    let alive: Vec<&Row> = rows.iter().filter(|r| !r.is_dead(201)).collect();
    assert_eq!(alive.len(), 1);
    assert_eq!(alive[0].values[0], Value::Integer(1));
}

#[test]
fn test_vacuum_preserves_alive_tuples() {
    let mut db = Database::new("test".to_string());
    let rows = vec![version_row(vec![Value::Integer(1)], 100, None), version_row(vec![Value::Integer(2)], 100, None)];
    db.create_table(id_table("users", rows)).unwrap();
    let result = VacuumExecutor::vacuum(&mut db, Some("users".to_string()), 1);
    assert!(result.is_ok());
    assert_eq!(db.get_table("users").unwrap().rows.len(), 2);
}

#[test]
fn test_vacuum_all_tables() {
    let mut db = Database::new("test".to_string());
    for name in &["t1", "t2"] {
        let rows = vec![version_row(vec![Value::Integer(1)], 100, None), version_row(vec![Value::Integer(2)], 100, Some(150))];
        db.create_table(id_table(name, rows)).unwrap();
    }
    let result = VacuumExecutor::vacuum(&mut db, None, 201);
    assert!(result.is_ok());
    for name in &["t1", "t2"] {
        let rows = &db.get_table(name).unwrap().rows;
        let alive: Vec<&Row> = rows.iter().filter(|r| !r.is_dead(201)).collect();
        assert_eq!(alive.len(), 1);
    }
}

#[test]
fn vacuum_reports_what_it_removed() {
    let mut db = Database::new("test".to_string());
    let rows = vec![
        version_row(vec![Value::Integer(1)], 1, Some(5)),
        version_row(vec![Value::Integer(2)], 1, Some(9)),
        version_row(vec![Value::Integer(3)], 1, None),
    ];
    db.create_table(id_table("t", rows)).unwrap();
    let r = VacuumExecutor::vacuum(&mut db, Some("t".to_string()), 5);
    assert_eq!(message_of(r), "VACUUM complete. Removed 1 dead tuples.");
    let left: Vec<Value> = db.get_table("t").unwrap().rows.iter().map(|r| r.values[0].clone()).collect();
    assert_eq!(left, vec![Value::Integer(2), Value::Integer(3)]);
    let missing = VacuumExecutor::vacuum(&mut db, Some("nope".to_string()), 5);
    assert_eq!(missing, Err(DatabaseError::TableNotFound("nope".to_string())));
}

#[test]
fn vacuum_twice_removes_nothing_more() {
    let mut db = Database::new("test".to_string());
    let rows = vec![version_row(vec![Value::Integer(1)], 1, Some(5)), version_row(vec![Value::Integer(2)], 1, None)];
    db.create_table(id_table("t", rows)).unwrap();
    VacuumExecutor::vacuum(&mut db, None, 10).unwrap();
    let second = VacuumExecutor::vacuum(&mut db, None, 10);
    assert_eq!(message_of(second), "VACUUM complete. Removed 0 dead tuples.");
}

// ---- DDL ----

fn def(name: &str, data_type: DataType, primary_key: bool) -> ColumnDef {
    ColumnDef { name: name.to_string(), data_type, nullable: !primary_key, primary_key, unique: false, foreign_key: None }
}

#[test]
fn create_and_drop_table_messages() {
    let mut db = Database::new("test".to_string());
    let r = DdlExecutor::create_table(&mut db, "users".to_string(), vec![def("id", DataType::Integer, true)]);
    assert_eq!(message_of(r), "Table 'users' created successfully");
    let again = DdlExecutor::create_table(&mut db, "users".to_string(), vec![def("id", DataType::Integer, true)]);
    assert_eq!(again, Err(DatabaseError::TableAlreadyExists("users".to_string())));
    let (rows, cols) = rows_of(DdlExecutor::show_tables(&db));
    assert_eq!(cols, vec!["Tables"]);
    assert_eq!(rows, vec![vec!["users".to_string()]]);
    let r = DdlExecutor::drop_table(&mut db, "users".to_string());
    assert_eq!(message_of(r), "Table 'users' dropped successfully");
    assert_eq!(message_of(DdlExecutor::show_tables(&db)), "No tables found");
}

#[test]
fn create_table_checks_foreign_key_targets() {
    let mut db = Database::new("test".to_string());
    let mut owner = def("owner", DataType::Integer, false);
    owner.foreign_key = Some(ForeignKey { referenced_table: "users".to_string(), referenced_column: "id".to_string() });
    let r = DdlExecutor::create_table(&mut db, "pets".to_string(), vec![owner]);
    assert!(r.is_err());
    assert!(db.get_table("pets").is_none());
}

#[test]
fn alter_table_operations() {
    let mut db = Database::new("test".to_string());
    DdlExecutor::create_table(&mut db, "users".to_string(), vec![def("id", DataType::Integer, true)]).unwrap();
    let r = DdlExecutor::alter_table(&mut db, "users".to_string(), AlterTableOperation::AddColumn(def("age", DataType::Integer, false)));
    assert_eq!(message_of(r), "Column 'age' added to table 'users'");
    let r = DdlExecutor::alter_table(
        &mut db,
        "users".to_string(),
        AlterTableOperation::RenameColumn { old_name: "age".to_string(), new_name: "years".to_string() },
    );
    assert_eq!(message_of(r), "Column 'age' renamed to 'years'");
    let r = DdlExecutor::alter_table(&mut db, "users".to_string(), AlterTableOperation::DropColumn("id".to_string()));
    assert_eq!(r, Err(DatabaseError::ParseError("Cannot drop PRIMARY KEY column".to_string())));
    let r = DdlExecutor::alter_table(&mut db, "users".to_string(), AlterTableOperation::DropColumn("years".to_string()));
    assert_eq!(message_of(r), "Column 'years' dropped from table 'users'");
    let r = DdlExecutor::alter_table(&mut db, "users".to_string(), AlterTableOperation::RenameTable("people".to_string()));
    assert_eq!(message_of(r), "Table 'users' renamed to 'people'");
    assert!(db.get_table("people").is_some());
    assert!(db.get_table("users").is_none());
    assert_eq!(db.get_table("people").unwrap().columns.len(), 1);
}

// ---- EXPLAIN ----

#[test]
fn explain_without_filter_is_a_sequential_scan() {
    let mut db = Database::new("test".to_string());
    db.create_table(people_table()).unwrap();
    let out = message_of(ExplainExecutor::explain(&db, "people", &None, 0));
    assert!(out.starts_with("QUERY PLAN\n"));
    assert!(out.contains("→ Seq Scan on people\n  Rows: ~3\n  Cost: O(n)\n"));
    assert!(!out.contains("JOIN"));
    let with_join = message_of(ExplainExecutor::explain(&db, "people", &None, 1));
    assert!(with_join.contains("(Note: JOIN analysis not yet implemented)"));
}

#[test]
fn explain_uses_a_unique_hash_index_for_equality() {
    let mut db = Database::new("test".to_string());
    db.create_table(people_table()).unwrap();
    IndexExecutor::create_index(&mut db, "idx_id".to_string(), "people".to_string(), vec!["id".to_string()], true, IndexType::Hash)
        .unwrap();
    let filter = Some(Condition::Equals("id".to_string(), Value::Integer(2)));
    let out = message_of(ExplainExecutor::explain(&db, "people", &filter, 0));
    assert!(out.contains("→ Unique Index Scan using idx_id (hash)\n  on people\n  Index Cond: id = Integer(2)\n  Rows: ~1\n  Cost: O(1)\n"));
    let missing = ExplainExecutor::explain(&db, "nope", &None, 0);
    assert_eq!(missing, Err(DatabaseError::TableNotFound("nope".to_string())));
}

#[test]
fn format_condition_renders_nested_conditions() {
    let c = Condition::And(
        Box::new(Condition::Equals("a".to_string(), Value::Integer(1))),
        Box::new(Condition::Or(
            Box::new(Condition::IsNull("b".to_string())),
            Box::new(Condition::Like("c".to_string(), "x%".to_string())),
        )),
    );
    assert_eq!(ExplainExecutor::format_condition(&c), "(a = Integer(1)) AND ((b IS NULL) OR (c LIKE 'x%'))");
}

#[test]
fn vacuum_keeps_what_later_readers_see() {
    let rows = vec![
        version_row(vec![Value::Integer(1)], 100, None),
        version_row(vec![Value::Integer(2)], 100, Some(150)),
        version_row(vec![Value::Integer(3)], 120, Some(300)),
        version_row(vec![Value::Integer(4)], 250, None),
    ];
    let mut table = id_table("t", rows);
    let seen = |t: &Table, reader: u64| -> Vec<Value> {
        t.rows.iter().filter(|r| r.is_visible(reader)).map(|r| r.values[0].clone()).collect()
    };
    let before: Vec<Vec<Value>> = [200u64, 260, 400].iter().map(|&x| seen(&table, x)).collect();
    let removed = VacuumExecutor::vacuum_table(&mut table, 200);
    assert_eq!(removed, 1);
    let after: Vec<Vec<Value>> = [200u64, 260, 400].iter().map(|&x| seen(&table, x)).collect();
    assert_eq!(before, after);
    assert_eq!(after[1], vec![Value::Integer(1), Value::Integer(3), Value::Integer(4)]);
}

fn ages_seen(t: &Table, reader: u64) -> Vec<Value> {
    t.rows.iter().filter(|r| r.is_visible(reader)).map(|r| r.values[1].clone()).collect()
}

#[test]
fn delete_hides_rows_only_from_later_readers() {
    let mut t = people_table();
    let earlier = ages_seen(&t, 5);
    let filter = Some(Condition::Equals("id".to_string(), Value::Integer(2)));
    DmlExecutor::delete_with_storage(&mut t, filter, 8).unwrap();
    assert_eq!(ages_seen(&t, 5), earlier);
    assert_eq!(ages_seen(&t, 8), vec![Value::Integer(30), Value::Integer(50)]);
    assert_eq!(ages_seen(&t, 20), vec![Value::Integer(30), Value::Integer(50)]);
}

#[test]
fn update_shows_new_versions_only_to_later_readers() {
    let mut t = people_table();
    let earlier = ages_seen(&t, 5);
    let filter = Some(Condition::GreaterThan("age".to_string(), Value::Integer(35)));
    DmlExecutor::update_with_storage(&mut t, vec![("age".to_string(), Value::Integer(0))], filter, 7).unwrap();
    assert_eq!(ages_seen(&t, 5), earlier);
    assert_eq!(ages_seen(&t, 7), vec![Value::Integer(30), Value::Integer(0), Value::Integer(0)]);
}

#[test]
fn pg_namespace_is_a_system_catalog_under_both_names() {
    assert!(SystemCatalog::is_system_catalog("pg_catalog.pg_namespace"));
    assert!(SystemCatalog::is_system_catalog("pg_namespace"));
}

#[test]
fn add_column_appends_null_to_every_row() {
    let mut db = Database::new("test".to_string());
    DdlExecutor::create_table(&mut db, "users".to_string(), vec![def("id", DataType::Integer, true)]).unwrap();
    db.get_table_mut("users").unwrap().rows.push(version_row(vec![Value::Integer(1)], 1, None));
    db.get_table_mut("users").unwrap().rows.push(version_row(vec![Value::Integer(2)], 1, None));
    let r = DdlExecutor::alter_table(&mut db, "users".to_string(), AlterTableOperation::AddColumn(def("age", DataType::Integer, false)));
    assert_eq!(message_of(r), "Column 'age' added to table 'users'");
    let t = db.get_table("users").unwrap();
    assert_eq!(t.columns.len(), 2);
    for (i, row) in t.rows.iter().enumerate() {
        assert_eq!(row.values, vec![Value::Integer(i as i64 + 1), Value::Null]);
    }
}
