use postgrustql::catalog::column::Column;
use postgrustql::catalog::data_type::DataType;
use postgrustql::catalog::database::Database;
use postgrustql::catalog::error::DatabaseError;
use postgrustql::catalog::privilege::Privilege;
use postgrustql::catalog::role::Role;
use postgrustql::catalog::row::{Row, Snapshot};
use postgrustql::catalog::server_instance::ServerInstance;
use postgrustql::catalog::table::Table;
use postgrustql::catalog::table_metadata::TableMetadata;
use postgrustql::catalog::value::{RealNumber, Value};

fn real_value(f: f64) -> Value {
    Value::Real(RealNumber {
        bits: f.to_bits(),
        display: f.to_string(),
        debug: format!("{:?}", f),
        padded: format!("{:020.10}", f),
    })
}

fn column(name: &str, data_type: DataType, nullable: bool, primary_key: bool) -> Column {
    Column { name: name.to_string(), data_type, nullable, primary_key, unique: false, foreign_key: None }
}

fn id_name_columns() -> Vec<Column> {
    vec![column("id", DataType::Integer, false, true), column("name", DataType::Text, false, false)]
}

#[test]
fn test_value_display() {
    assert_eq!(Value::Null.to_display_string(), "NULL");
    assert_eq!(Value::Integer(42).to_display_string(), "42");
    assert_eq!(real_value(3.14).to_display_string(), "3.14");
    assert_eq!(Value::Text("hello".to_string()).to_display_string(), "hello");
    assert_eq!(Value::Boolean(true).to_display_string(), "true");
}

#[test]
fn test_value_as_int() {
    assert_eq!(Value::Integer(42).as_int(), Some(42));
    assert_eq!(Value::Text("hello".to_string()).as_int(), None);
    assert_eq!(Value::Null.as_int(), None);
}

#[test]
fn test_value_as_text() {
    assert_eq!(Value::Text("hello".to_string()).as_text(), Some("hello"));
    assert_eq!(Value::Integer(42).as_text(), None);
}

#[test]
fn test_value_as_bool() {
    assert_eq!(Value::Boolean(true).as_bool(), Some(true));
    assert_eq!(Value::Boolean(false).as_bool(), Some(false));
    assert_eq!(Value::Integer(1).as_bool(), None);
}

#[test]
fn test_table_creation() {
    let table = Table::new("users".to_string(), id_name_columns());
    assert_eq!(table.name, "users");
    assert_eq!(table.columns.len(), 2);
    assert_eq!(table.rows.len(), 0);
}

#[test]
fn test_table_insert() {
    let mut table = Table::new("users".to_string(), id_name_columns());
    let row = Row::new(vec![Value::Integer(1), Value::Text("Alice".to_string())]);
    assert!(table.insert(row).is_ok());
    assert_eq!(table.rows.len(), 1);
}

#[test]
fn test_table_insert_wrong_column_count() {
    let mut table = Table::new("users".to_string(), vec![column("id", DataType::Integer, false, true)]);
    let row = Row::new(vec![Value::Integer(1), Value::Text("Alice".to_string())]);
    assert!(matches!(table.insert(row), Err(DatabaseError::ColumnCountMismatch)));
}

#[test]
fn test_table_get_column_index() {
    let table = Table::new("users".to_string(), id_name_columns());
    assert_eq!(table.get_column_index("id"), Some(0));
    assert_eq!(table.get_column_index("name"), Some(1));
    assert_eq!(table.get_column_index("age"), None);
}

#[test]
fn test_database_creation() {
    let db = Database::new("test_db".to_string());
    assert_eq!(db.name, "test_db");
    assert_eq!(db.tables.len(), 0);
}

#[test]
fn test_database_create_table() {
    let mut db = Database::new("test_db".to_string());
    let table = Table::new("users".to_string(), vec![column("id", DataType::Integer, false, true)]);
    assert!(db.create_table(table).is_ok());
    assert_eq!(db.tables.len(), 1);
    assert!(db.get_table("users").is_some());
}

#[test]
fn test_database_create_duplicate_table() {
    let mut db = Database::new("test_db".to_string());
    let table1 = Table::new("users".to_string(), vec![column("id", DataType::Integer, false, true)]);
    let table2 = Table::new("users".to_string(), vec![column("id", DataType::Integer, false, true)]);
    assert!(db.create_table(table1).is_ok());
    assert!(matches!(db.create_table(table2), Err(DatabaseError::TableAlreadyExists(_))));
}

#[test]
fn test_database_drop_table() {
    let mut db = Database::new("test_db".to_string());
    let table = Table::new("users".to_string(), vec![column("id", DataType::Integer, false, true)]);
    db.create_table(table).unwrap();
    assert!(db.drop_table("users").is_ok());
    assert_eq!(db.tables.len(), 0);
}

#[test]
fn test_database_drop_nonexistent_table() {
    let mut db = Database::new("test_db".to_string());
    assert!(matches!(db.drop_table("users"), Err(DatabaseError::TableNotFound(_))));
}

#[test]
fn test_value_equality() {
    assert_eq!(Value::Integer(42), Value::Integer(42));
    assert_ne!(Value::Integer(42), Value::Integer(43));
    assert_eq!(Value::Text("hello".to_string()), Value::Text("hello".to_string()));
    assert_eq!(Value::Boolean(true), Value::Boolean(true));
}

#[test]
fn role_test_create_role() {
    let role = Role::new("readonly".to_string(), false);
    assert_eq!(role.name, "readonly");
    assert!(!role.is_superuser);
    assert!(!role.can_create_db);
    assert!(role.members.is_empty());
}

#[test]
fn test_superuser_role() {
    let role = Role::new("admin".to_string(), true);
    assert!(role.is_superuser);
    assert!(role.can_create_db);
    assert!(role.can_create_role);
}

#[test]
fn test_add_remove_member() {
    let mut role = Role::new("developers".to_string(), false);
    role.add_member("alice");
    role.add_member("bob");
    assert_eq!(role.members.len(), 2);
    assert!(role.has_member("alice"));
    assert!(role.has_member("bob"));
    role.remove_member("alice");
    assert_eq!(role.members.len(), 1);
    assert!(!role.has_member("alice"));
    assert!(role.has_member("bob"));
}

#[test]
fn test_role_inheritance() {
    let mut analyst = Role::new("analyst".to_string(), false);
    analyst.add_parent_role("readonly");
    assert!(analyst.member_of.contains("readonly"));
    analyst.remove_parent_role("readonly");
    assert!(analyst.member_of.is_empty());
}

fn bare_row(xmin: u64, xmax: Option<u64>) -> Row {
    Row { values: vec![], xmin, xmax }
}

#[test]
fn test_row_is_dead_with_no_xmax() {
    let row = bare_row(100, None);
    assert!(!row.is_dead(200));
    assert!(!row.is_dead(150));
    assert!(!row.is_dead(100));
}

#[test]
fn test_row_is_dead_with_old_xmax() {
    let row = bare_row(100, Some(150));
    assert!(row.is_dead(200));
    assert!(row.is_dead(151));
    assert!(row.is_dead(150));
}

#[test]
fn test_row_not_dead_if_visible_to_active_tx() {
    let row = bare_row(100, Some(150));
    assert!(!row.is_dead(149));
    assert!(!row.is_dead(140));
    assert!(!row.is_dead(100));
}

#[test]
fn test_row_visible_to_snapshot_basic() {
    let row = bare_row(1, None);
    let snapshot = Snapshot::new(2, 2, vec![]);
    assert!(row.is_visible_to_snapshot(&snapshot));
}

#[test]
fn test_row_invisible_if_created_by_uncommitted_tx() {
    let row = bare_row(2, None);
    let snapshot = Snapshot::new(2, 3, vec![2]);
    assert!(!row.is_visible_to_snapshot(&snapshot));
}

#[test]
fn test_row_invisible_if_created_after_snapshot() {
    let row = bare_row(5, None);
    let snapshot = Snapshot::new(3, 3, vec![]);
    assert!(!row.is_visible_to_snapshot(&snapshot));
}

#[test]
fn test_row_visible_if_deleted_by_uncommitted_tx() {
    let row = bare_row(1, Some(3));
    let snapshot = Snapshot::new(3, 4, vec![3]);
    assert!(row.is_visible_to_snapshot(&snapshot));
}

#[test]
fn test_row_visible_if_deleted_after_snapshot() {
    let row = bare_row(1, Some(5));
    let snapshot = Snapshot::new(3, 3, vec![]);
    assert!(row.is_visible_to_snapshot(&snapshot));
}

#[test]
fn test_row_invisible_if_deleted_before_snapshot() {
    let row = bare_row(1, Some(2));
    let snapshot = Snapshot::new(5, 5, vec![]);
    assert!(!row.is_visible_to_snapshot(&snapshot));
}

fn create_test_instance() -> ServerInstance {
    ServerInstance::initialize("postgres", "password", "testdb")
}

fn owned_table(name: &str, owner: &str) -> Table {
    Table::new_with_owner(name.to_string(), vec![column("id", DataType::Integer, false, true)], owner.to_string())
}

#[test]
fn server_instance_test_create_role() {
    let mut inst = create_test_instance();
    inst.create_role("readonly", false).unwrap();
    assert!(inst.roles.contains_key("readonly"));
    assert!(!inst.roles.get("readonly").unwrap().is_superuser);
    inst.create_role("admin", true).unwrap();
    assert!(inst.roles.contains_key("admin"));
    assert!(inst.roles.get("admin").unwrap().is_superuser);
    let result = inst.create_role("readonly", false);
    assert!(result.is_err());
}

#[test]
fn test_drop_role() {
    let mut inst = create_test_instance();
    inst.create_role("temp_role", false).unwrap();
    assert!(inst.roles.contains_key("temp_role"));
    inst.drop_role("temp_role").unwrap();
    assert!(!inst.roles.contains_key("temp_role"));
    let result = inst.drop_role("nonexistent");
    assert!(result.is_err());
}

#[test]
fn test_grant_revoke_role() {
    let mut inst = create_test_instance();
    inst.create_user("alice", "password", false).unwrap();
    inst.create_role("developers", false).unwrap();
    inst.grant_role_to_user("developers", "alice").unwrap();
    let user = inst.users.get("alice").unwrap();
    assert!(user.roles.contains("developers"));
    let role = inst.roles.get("developers").unwrap();
    assert!(role.members.contains("alice"));
    inst.revoke_role_from_user("developers", "alice").unwrap();
    let user = inst.users.get("alice").unwrap();
    assert!(!user.roles.contains("developers"));
    let role = inst.roles.get("developers").unwrap();
    assert!(!role.members.contains("alice"));
}

#[test]
fn test_role_hierarchy() {
    let mut inst = create_test_instance();
    inst.create_role("readonly", false).unwrap();
    inst.create_role("developer", false).unwrap();
    inst.roles.get_mut("developer").unwrap().add_parent_role("readonly");
    inst.create_user("bob", "password", false).unwrap();
    inst.grant_role_to_user("developer", "bob").unwrap();
    let all_roles = inst.get_user_roles("bob");
    assert!(all_roles.contains("developer"));
    assert!(all_roles.contains("readonly"));
}

#[test]
fn test_table_ownership() {
    let mut inst = create_test_instance();
    inst.create_user("alice", "password", false).unwrap();
    let table = owned_table("users", "alice");
    {
        let db = inst.get_database_mut("testdb").unwrap();
        db.create_table(table).unwrap();
    }
    let db = inst.get_database("testdb").unwrap();
    assert!(db.is_table_owner("alice", "users"));
    assert!(!db.is_table_owner("postgres", "users"));
}

#[test]
fn test_table_permission_checks() {
    let mut inst = create_test_instance();
    inst.create_user("alice", "password", false).unwrap();
    inst.create_user("bob", "password", false).unwrap();
    let table = owned_table("orders", "alice");
    {
        let db = inst.get_database_mut("testdb").unwrap();
        db.create_table(table).unwrap();
    }
    assert!(inst.check_table_permission("alice", "testdb", "orders", &Privilege::Select));
    assert!(inst.check_table_permission("alice", "testdb", "orders", &Privilege::Insert));
    assert!(!inst.check_table_permission("bob", "testdb", "orders", &Privilege::Select));
    {
        let db = inst.get_database_mut("testdb").unwrap();
        let metadata = db.table_metadata.get_mut("orders").unwrap();
        metadata.grant("bob", Privilege::Select);
    }
    assert!(inst.check_table_permission("bob", "testdb", "orders", &Privilege::Select));
    assert!(!inst.check_table_permission("bob", "testdb", "orders", &Privilege::Insert));
}

#[test]
fn test_superuser_permissions() {
    let mut inst = create_test_instance();
    inst.create_user("alice", "password", false).unwrap();
    let table = owned_table("data", "alice");
    {
        let db = inst.get_database_mut("testdb").unwrap();
        db.create_table(table).unwrap();
    }
    assert!(inst.check_table_permission("postgres", "testdb", "data", &Privilege::Select));
    assert!(inst.check_table_permission("postgres", "testdb", "data", &Privilege::Insert));
    assert!(inst.check_table_permission("postgres", "testdb", "data", &Privilege::Delete));
}

#[test]
fn test_role_based_permissions() {
    let mut inst = create_test_instance();
    inst.create_role("readers", false).unwrap();
    inst.create_user("bob", "password", false).unwrap();
    inst.grant_role_to_user("readers", "bob").unwrap();
    inst.create_user("alice", "password", false).unwrap();
    let table = owned_table("products", "alice");
    {
        let db = inst.get_database_mut("testdb").unwrap();
        db.create_table(table).unwrap();
        let metadata = db.table_metadata.get_mut("products").unwrap();
        metadata.grant("readers", Privilege::Select);
    }
    assert!(inst.check_table_permission("bob", "testdb", "products", &Privilege::Select));
    assert!(!inst.check_table_permission("bob", "testdb", "products", &Privilege::Insert));
}

#[test]
fn test_is_table_owner_or_superuser() {
    let mut inst = create_test_instance();
    inst.create_user("alice", "password", false).unwrap();
    let table = owned_table("test_table", "alice");
    {
        let db = inst.get_database_mut("testdb").unwrap();
        db.create_table(table).unwrap();
    }
    assert!(inst.is_table_owner_or_superuser("alice", "testdb", "test_table"));
    assert!(inst.is_table_owner_or_superuser("postgres", "testdb", "test_table"));
    inst.create_user("bob", "password", false).unwrap();
    assert!(!inst.is_table_owner_or_superuser("bob", "testdb", "test_table"));
}

#[test]
fn test_new_table_metadata() {
    let meta = TableMetadata::new("users".to_string(), "alice".to_string());
    assert_eq!(meta.table_name, "users");
    assert_eq!(meta.owner, "alice");
    assert!(meta.has_privilege("alice", &Privilege::All));
    assert!(meta.is_owner("alice"));
}

#[test]
fn test_grant_privilege() {
    let mut meta = TableMetadata::new("users".to_string(), "alice".to_string());
    meta.grant("bob", Privilege::Select);
    assert!(meta.has_privilege("bob", &Privilege::Select));
    assert!(!meta.has_privilege("bob", &Privilege::Insert));
}

#[test]
fn test_revoke_privilege() {
    let mut meta = TableMetadata::new("users".to_string(), "alice".to_string());
    meta.grant("bob", Privilege::Select);
    meta.grant("bob", Privilege::Insert);
    assert!(meta.has_privilege("bob", &Privilege::Select));
    meta.revoke("bob", &Privilege::Select);
    assert!(!meta.has_privilege("bob", &Privilege::Select));
    assert!(meta.has_privilege("bob", &Privilege::Insert));
}

#[test]
fn test_privilege_all() {
    let meta = TableMetadata::new("users".to_string(), "alice".to_string());
    assert!(meta.has_privilege("alice", &Privilege::Select));
    assert!(meta.has_privilege("alice", &Privilege::Insert));
    assert!(meta.has_privilege("alice", &Privilege::Update));
    assert!(meta.has_privilege("alice", &Privilege::Delete));
}

#[test]
fn password_digest_is_64_lowercase_hex_digits() {
    let u = postgrustql::catalog::user::User::new("alice".to_string(), "secret", false);
    assert_eq!(u.password_hash.len(), 64);
    assert!(u.password_hash.chars().all(|c| c.is_ascii_digit() || ('a'..='f').contains(&c)));
    assert!(u.verify_password("secret"));
    assert!(!u.verify_password("other"));
}
