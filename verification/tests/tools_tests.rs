use postgrustql::catalog::column::{Column, ForeignKey};
use postgrustql::catalog::data_type::DataType;
use postgrustql::catalog::database::Database;
use postgrustql::catalog::row::Row;
use postgrustql::catalog::table::Table;
use postgrustql::catalog::value::Value;
use postgrustql::dump::{datatype_to_sql, dump_create_table, dump_data, dump_schema, dump_sql, escape_sql_string, value_to_sql};
use postgrustql::executor::indexes::IndexExecutor;
use postgrustql::index::IndexType;
use postgrustql::restore::{detect_format, split_sql_statements, RestoreFormat};
use postgrustql::settings::{ClientConfig, ServerConfig};

fn column(name: &str, data_type: DataType, nullable: bool, primary_key: bool) -> Column {
    Column { name: name.to_string(), data_type, nullable, primary_key, unique: false, foreign_key: None }
}

fn users() -> Table {
    let mut t = Table::new(
        "users".to_string(),
        vec![column("id", DataType::Integer, false, true), column("name", DataType::Text, true, false)],
    );
    t.rows.push(Row::new(vec![Value::Integer(1), Value::Text("O'Brien".to_string())]));
    t.rows.push(Row::new(vec![Value::Integer(2), Value::Null]));
    t
}

// ---- dump ----

#[test]
fn escaping_doubles_single_quotes() {
    assert_eq!(escape_sql_string("it's"), "it''s");
    assert_eq!(escape_sql_string("''"), "''''");
    assert_eq!(escape_sql_string("plain"), "plain");
}

#[test]
fn sql_literals_of_values() {
    assert_eq!(value_to_sql(&Value::Null), "NULL");
    assert_eq!(value_to_sql(&Value::Integer(-42)), "-42");
    assert_eq!(value_to_sql(&Value::SmallInt(7)), "7");
    assert_eq!(value_to_sql(&Value::Boolean(true)), "TRUE");
    assert_eq!(value_to_sql(&Value::Boolean(false)), "FALSE");
    assert_eq!(value_to_sql(&Value::Text("a'b".to_string())), "'a''b'");
    assert_eq!(value_to_sql(&Value::Bytea(vec![0xde, 0xad, 0x01])), "'\\xdead01'");
    assert_eq!(value_to_sql(&Value::Enum("mood".to_string(), "happy".to_string())), "'happy'");
}

#[test]
fn sql_names_of_types() {
    assert_eq!(datatype_to_sql(&DataType::Integer), "INTEGER");
    assert_eq!(datatype_to_sql(&DataType::Varchar { max_length: 20 }), "VARCHAR(20)");
    assert_eq!(datatype_to_sql(&DataType::Char { length: 3 }), "CHAR(3)");
    assert_eq!(datatype_to_sql(&DataType::Numeric { precision: 10, scale: 2 }), "NUMERIC(10, 2)");
    assert_eq!(datatype_to_sql(&DataType::TimestampTz), "TIMESTAMPTZ");
    assert_eq!(datatype_to_sql(&DataType::Enum { name: "mood".to_string(), values: vec![] }), "mood");
}

#[test]
fn create_table_statement() {
    let mut t = users();
    let mut owner = column("owner", DataType::Integer, true, false);
    owner.unique = true;
    owner.foreign_key = Some(ForeignKey { referenced_table: "people".to_string(), referenced_column: "id".to_string() });
    t.columns.push(owner);
    assert_eq!(
        dump_create_table(&t),
        "CREATE TABLE users (\n  id INTEGER NOT NULL PRIMARY KEY,\n  name TEXT,\n  owner INTEGER UNIQUE REFERENCES people(id)\n);\n"
    );
}

#[test]
fn schema_and_data_of_a_database() {
    let mut db = Database::new("shop".to_string());
    db.create_table(users()).unwrap();
    IndexExecutor::create_index(&mut db, "idx_name".to_string(), "users".to_string(), vec!["name".to_string()], false, IndexType::BTree)
        .unwrap();
    let schema = dump_schema(&db);
    assert_eq!(
        schema,
        "-- Schema\n\n-- Tables\nCREATE TABLE users (\n  id INTEGER NOT NULL PRIMARY KEY,\n  name TEXT\n);\n\n\
         -- Indexes\nCREATE INDEX idx_name ON users(name) USING BTREE;\n\n"
    );
    let data = dump_data(&db);
    assert_eq!(
        data,
        "-- Data\n\n-- Table: users\nINSERT INTO users (id, name) VALUES (1, 'O''Brien');\n\
         INSERT INTO users (id, name) VALUES (2, NULL);\n\n"
    );
    let both = dump_sql(&db, false, false);
    assert!(both.starts_with("--\n-- RustDB database dump\n-- Database: shop\n--\n\n"));
    assert!(both.contains(&schema));
    assert!(both.contains(&data));
    assert!(!dump_sql(&db, true, false).contains("INSERT INTO"));
    assert!(!dump_sql(&db, false, true).contains("CREATE TABLE"));
}

#[test]
fn empty_tables_have_no_data_section() {
    let mut db = Database::new("shop".to_string());
    db.create_table(Table::new("empty".to_string(), vec![column("id", DataType::Integer, false, true)])).unwrap();
    assert_eq!(dump_data(&db), "-- Data\n\n");
}

// ---- restore ----

#[test]
fn format_is_told_from_the_content() {
    assert_eq!(detect_format(b"  -- dump\nCREATE TABLE t (id INTEGER);"), RestoreFormat::Sql);
    assert_eq!(detect_format(b"CREATE TABLE t (id INTEGER);"), RestoreFormat::Sql);
    assert_eq!(detect_format(b"\nINSERT INTO t VALUES (1);"), RestoreFormat::Sql);
    assert_eq!(detect_format(b"BEGIN;"), RestoreFormat::Sql);
    assert_eq!(detect_format(b"SELECT 1;"), RestoreFormat::Binary);
    assert_eq!(detect_format(&[0xff, 0xfe, 0x00, 0x01]), RestoreFormat::Binary);
    assert_eq!(detect_format(b""), RestoreFormat::Binary);
}

#[test]
fn statements_are_split_at_semicolons_outside_strings() {
    let input = "-- header\nCREATE TABLE t (\n  id INTEGER\n);\nINSERT INTO t VALUES ('a;b');\nINSERT INTO t VALUES ('it\\'s');";
    let parts = split_sql_statements(input);
    assert_eq!(
        parts,
        vec![
            "CREATE TABLE t (\n  id INTEGER\n);".to_string(),
            "INSERT INTO t VALUES ('a;b');".to_string(),
            "INSERT INTO t VALUES ('it\\'s');".to_string(),
        ]
    );
}

#[test]
fn trailing_text_without_semicolon_is_a_statement() {
    assert_eq!(split_sql_statements("SELECT 1; SELECT 2"), vec!["SELECT 1;".to_string(), "SELECT 2".to_string()]);
    assert!(split_sql_statements("-- only a comment\n").is_empty());
    assert!(split_sql_statements("").is_empty());
}

// ---- settings ----

#[test]
fn server_defaults() {
    let c = ServerConfig::defaults();
    assert_eq!(c.user, "postgres");
    assert_eq!(c.password, "postgres");
    assert_eq!(c.database, "postgres");
    assert_eq!(c.host, "127.0.0.1");
    assert_eq!(c.port, 5432);
    assert_eq!(c.data_dir, "./data");
    assert!(c.initdb);
}

#[test]
fn client_overrides_replace_only_what_is_given() {
    let c = ClientConfig::with_overrides(ClientConfig::defaults(), None, Some(6543), Some("alice".to_string()), None);
    assert_eq!(c.host, "127.0.0.1");
    assert_eq!(c.port, 6543);
    assert_eq!(c.user, "alice");
    assert_eq!(c.database, "postgres");
}

#[test]
fn comment_after_a_statement_with_trailing_space_is_skipped() {
    assert_eq!(
        split_sql_statements("SELECT 1; \n-- note\nSELECT 2;"),
        vec!["SELECT 1;".to_string(), "SELECT 2;".to_string()]
    );
}
