use postgrustql::catalog::column::Column;
use postgrustql::catalog::data_type::DataType;
use postgrustql::catalog::database::Database;
use postgrustql::catalog::error::DatabaseError;
use postgrustql::catalog::row::Row;
use postgrustql::catalog::table::Table;
use postgrustql::catalog::value::Value;
use postgrustql::executor::QueryResult;
use postgrustql::executor::indexes::IndexExecutor;
use postgrustql::index::IndexType;
use postgrustql::index::btree::BTreeIndex;
use postgrustql::index::hash::HashIndex;

fn text(s: &str) -> Value {
    Value::Text(s.to_string())
}

fn column(name: &str, data_type: DataType) -> Column {
    Column { name: name.to_string(), data_type, nullable: false, primary_key: false, unique: false, foreign_key: None }
}

#[test]
fn test_btree_insert_and_search() {
    let mut index = BTreeIndex::new("idx_id".to_string(), "users".to_string(), "id".to_string(), true);
    index.insert(&Value::Integer(1), 0).unwrap();
    index.insert(&Value::Integer(2), 1).unwrap();
    index.insert(&Value::Integer(3), 2).unwrap();
    assert_eq!(index.search(&Value::Integer(1)), vec![0]);
    assert_eq!(index.search(&Value::Integer(2)), vec![1]);
    assert_eq!(index.search(&Value::Integer(3)), vec![2]);
    assert_eq!(index.search(&Value::Integer(999)), Vec::<usize>::new());
}

#[test]
fn test_btree_unique_constraint() {
    let mut index = BTreeIndex::new("idx_id".to_string(), "users".to_string(), "id".to_string(), true);
    index.insert(&Value::Integer(1), 0).unwrap();
    let result = index.insert(&Value::Integer(1), 1);
    assert!(result.is_err());
    assert!(matches!(result, Err(DatabaseError::UniqueViolation(_))));
}

#[test]
fn test_btree_non_unique() {
    let mut index = BTreeIndex::new("idx_age".to_string(), "users".to_string(), "age".to_string(), false);
    index.insert(&Value::Integer(25), 0).unwrap();
    index.insert(&Value::Integer(25), 1).unwrap();
    index.insert(&Value::Integer(25), 2).unwrap();
    let results = index.search(&Value::Integer(25));
    assert_eq!(results.len(), 3);
    assert!(results.contains(&0));
    assert!(results.contains(&1));
    assert!(results.contains(&2));
}

#[test]
fn test_btree_delete() {
    let mut index = BTreeIndex::new("idx_id".to_string(), "users".to_string(), "id".to_string(), false);
    index.insert(&Value::Integer(1), 0).unwrap();
    index.insert(&Value::Integer(1), 1).unwrap();
    index.delete(&Value::Integer(1), 0);
    assert_eq!(index.search(&Value::Integer(1)), vec![1]);
    index.delete(&Value::Integer(1), 1);
    assert_eq!(index.search(&Value::Integer(1)), Vec::<usize>::new());
    assert_eq!(index.key_count(), 0);
}

#[test]
fn test_btree_text_values() {
    let mut index = BTreeIndex::new("idx_name".to_string(), "users".to_string(), "name".to_string(), false);
    index.insert(&text("Alice"), 0).unwrap();
    index.insert(&text("Bob"), 1).unwrap();
    index.insert(&text("Charlie"), 2).unwrap();
    assert_eq!(index.search(&text("Alice")), vec![0]);
    assert_eq!(index.search(&text("Bob")), vec![1]);
    assert_eq!(index.search(&text("Dave")), Vec::<usize>::new());
}

#[test]
fn test_btree_counts() {
    let mut index = BTreeIndex::new("idx_age".to_string(), "users".to_string(), "age".to_string(), false);
    index.insert(&Value::Integer(25), 0).unwrap();
    index.insert(&Value::Integer(25), 1).unwrap();
    index.insert(&Value::Integer(30), 2).unwrap();
    assert_eq!(index.key_count(), 2);
    assert_eq!(index.entry_count(), 3);
}

#[test]
fn test_hash_index_insert_and_search() {
    let mut index = HashIndex::new("idx_test".to_string(), "users".to_string(), "name".to_string(), false);
    index.insert(&text("Alice"), 0).unwrap();
    index.insert(&text("Bob"), 1).unwrap();
    index.insert(&text("Alice"), 2).unwrap();
    assert_eq!(index.search(&text("Alice")), vec![0, 2]);
    assert_eq!(index.search(&text("Bob")), vec![1]);
    assert_eq!(index.search(&text("Charlie")), Vec::<usize>::new());
}

#[test]
fn test_hash_index_unique_constraint() {
    let mut index = HashIndex::new("idx_unique".to_string(), "users".to_string(), "email".to_string(), true);
    index.insert(&text("alice@example.com"), 0).unwrap();
    let result = index.insert(&text("alice@example.com"), 1);
    assert!(result.is_err());
}

#[test]
fn test_hash_index_delete() {
    let mut index = HashIndex::new("idx_test".to_string(), "users".to_string(), "name".to_string(), false);
    index.insert(&text("Alice"), 0).unwrap();
    index.insert(&text("Alice"), 1).unwrap();
    index.delete(&text("Alice"), 0);
    assert_eq!(index.search(&text("Alice")), vec![1]);
    index.delete(&text("Alice"), 1);
    assert_eq!(index.search(&text("Alice")), Vec::<usize>::new());
}

#[test]
fn test_hash_index_integer_values() {
    let mut index = HashIndex::new("idx_age".to_string(), "users".to_string(), "age".to_string(), false);
    index.insert(&Value::Integer(25), 0).unwrap();
    index.insert(&Value::Integer(30), 1).unwrap();
    index.insert(&Value::Integer(25), 2).unwrap();
    assert_eq!(index.search(&Value::Integer(25)), vec![0, 2]);
    assert_eq!(index.search(&Value::Integer(30)), vec![1]);
}

#[test]
fn test_hash_index_counts() {
    let mut index = HashIndex::new("idx_test".to_string(), "users".to_string(), "category".to_string(), false);
    index.insert(&text("A"), 0).unwrap();
    index.insert(&text("B"), 1).unwrap();
    index.insert(&text("A"), 2).unwrap();
    assert_eq!(index.key_count(), 2);
    assert_eq!(index.entry_count(), 3);
}

#[test]
fn test_create_btree_index() {
    let mut db = Database::new("test".to_string());
    let mut table = Table::new("users".to_string(), vec![column("id", DataType::Integer), column("name", DataType::Text)]);
    table.rows = vec![
        Row::new(vec![Value::Integer(1), text("Alice")]),
        Row::new(vec![Value::Integer(2), text("Bob")]),
    ];
    db.create_table(table).unwrap();
    let result = IndexExecutor::create_index(&mut db, "idx_id".to_string(), "users".to_string(), vec!["id".to_string()], false, IndexType::BTree);
    assert!(result.is_ok());
    assert!(db.indexes.contains_key("idx_id"));
    let index = db.indexes.get("idx_id").unwrap();
    assert_eq!(index.search(&Value::Integer(1)), vec![0]);
    assert_eq!(index.search(&Value::Integer(2)), vec![1]);
}

#[test]
fn test_create_hash_index() {
    let mut db = Database::new("test".to_string());
    let mut table = Table::new("products".to_string(), vec![column("category", DataType::Text)]);
    table.rows = vec![Row::new(vec![text("Electronics")]), Row::new(vec![text("Books")])];
    db.create_table(table).unwrap();
    let result = IndexExecutor::create_index(&mut db, "idx_category".to_string(), "products".to_string(), vec!["category".to_string()], false, IndexType::Hash);
    assert!(result.is_ok());
    assert!(db.indexes.contains_key("idx_category"));
    let index = db.indexes.get("idx_category").unwrap();
    assert_eq!(index.search(&text("Electronics")), vec![0]);
    assert_eq!(index.search(&text("Books")), vec![1]);
}

#[test]
fn test_create_duplicate_index() {
    let mut db = Database::new("test".to_string());
    let table = Table::new("users".to_string(), vec![column("id", DataType::Integer)]);
    db.create_table(table).unwrap();
    IndexExecutor::create_index(&mut db, "idx_id".to_string(), "users".to_string(), vec!["id".to_string()], false, IndexType::BTree).unwrap();
    let result = IndexExecutor::create_index(&mut db, "idx_id".to_string(), "users".to_string(), vec!["id".to_string()], false, IndexType::BTree);
    assert!(result.is_err());
}

#[test]
fn test_drop_index() {
    let mut db = Database::new("test".to_string());
    let table = Table::new("users".to_string(), vec![column("id", DataType::Integer)]);
    db.create_table(table).unwrap();
    IndexExecutor::create_index(&mut db, "idx_id".to_string(), "users".to_string(), vec!["id".to_string()], false, IndexType::BTree).unwrap();
    let result = IndexExecutor::drop_index(&mut db, "idx_id".to_string());
    assert!(result.is_ok());
    assert!(!db.indexes.contains_key("idx_id"));
}

#[test]
fn test_create_composite_btree_index() {
    let mut db = Database::new("test".to_string());
    let mut table = Table::new("users".to_string(), vec![column("city", DataType::Text), column("age", DataType::Integer)]);
    table.rows = vec![
        Row::new(vec![text("NYC"), Value::Integer(30)]),
        Row::new(vec![text("LA"), Value::Integer(25)]),
        Row::new(vec![text("NYC"), Value::Integer(25)]),
    ];
    db.create_table(table).unwrap();
    let result = IndexExecutor::create_index(&mut db, "idx_city_age".to_string(), "users".to_string(), vec!["city".to_string(), "age".to_string()], false, IndexType::BTree);
    assert!(result.is_ok());
    assert!(db.indexes.contains_key("idx_city_age"));
    let index = db.indexes.get("idx_city_age").unwrap();
    assert!(index.is_composite());
    assert_eq!(index.column_names().len(), 2);
    let results = index.search_composite(&vec![text("NYC"), Value::Integer(30)]);
    assert_eq!(results, vec![0]);
}

#[test]
fn test_create_composite_hash_index() {
    let mut db = Database::new("test".to_string());
    let mut table = Table::new("people".to_string(), vec![column("first_name", DataType::Text), column("last_name", DataType::Text)]);
    table.rows = vec![
        Row::new(vec![text("John"), text("Doe")]),
        Row::new(vec![text("Jane"), text("Smith")]),
        Row::new(vec![text("John"), text("Smith")]),
    ];
    db.create_table(table).unwrap();
    let result = IndexExecutor::create_index(&mut db, "idx_name".to_string(), "people".to_string(), vec!["first_name".to_string(), "last_name".to_string()], false, IndexType::Hash);
    assert!(result.is_ok());
    assert!(db.indexes.contains_key("idx_name"));
    let index = db.indexes.get("idx_name").unwrap();
    assert!(index.is_composite());
    let results = index.search_composite(&vec![text("John"), text("Doe")]);
    assert_eq!(results, vec![0]);
    let results2 = index.search_composite(&vec![text("John"), text("Smith")]);
    assert_eq!(results2, vec![2]);
}

#[test]
fn test_composite_unique_index() {
    let mut db = Database::new("test".to_string());
    let mut table = Table::new("accounts".to_string(), vec![column("email", DataType::Text), column("provider", DataType::Text)]);
    table.rows = vec![Row::new(vec![text("user@example.com"), text("google")])];
    db.create_table(table).unwrap();
    let result = IndexExecutor::create_index(&mut db, "idx_email_provider".to_string(), "accounts".to_string(), vec!["email".to_string(), "provider".to_string()], true, IndexType::BTree);
    assert!(result.is_ok());
    let index = db.indexes.get("idx_email_provider").unwrap();
    assert!(index.is_unique());
    assert!(index.is_composite());
}

#[test]
fn create_index_message_names_table_and_columns() {
    let mut db = Database::new("test".to_string());
    let table = Table::new("users".to_string(), vec![column("city", DataType::Text), column("age", DataType::Integer)]);
    db.create_table(table).unwrap();
    let result = IndexExecutor::create_index(&mut db, "idx_ca".to_string(), "users".to_string(), vec!["city".to_string(), "age".to_string()], false, IndexType::Hash);
    match result {
        Ok(QueryResult::Success(m)) => assert_eq!(m, "Index 'idx_ca' created on users.(city, age) using hash"),
        _ => panic!("expected success"),
    }
}

#[test]
fn create_index_refuses_unknown_column_and_table() {
    let mut db = Database::new("test".to_string());
    let table = Table::new("users".to_string(), vec![column("id", DataType::Integer)]);
    db.create_table(table).unwrap();
    let r = IndexExecutor::create_index(&mut db, "i".to_string(), "users".to_string(), vec!["nope".to_string()], false, IndexType::BTree);
    assert!(matches!(r, Err(DatabaseError::ColumnNotFound(ref c)) if c == "nope"));
    let r = IndexExecutor::create_index(&mut db, "i".to_string(), "ghost".to_string(), vec!["id".to_string()], false, IndexType::BTree);
    assert!(matches!(r, Err(DatabaseError::TableNotFound(ref t)) if t == "ghost"));
    assert!(db.indexes.is_empty());
}

#[test]
fn create_unique_index_over_duplicates_fails() {
    let mut db = Database::new("test".to_string());
    let mut table = Table::new("users".to_string(), vec![column("id", DataType::Integer)]);
    table.rows = vec![Row::new(vec![Value::Integer(7)]), Row::new(vec![Value::Integer(7)])];
    db.create_table(table).unwrap();
    let r = IndexExecutor::create_index(&mut db, "u".to_string(), "users".to_string(), vec!["id".to_string()], true, IndexType::BTree);
    assert!(matches!(r, Err(DatabaseError::UniqueViolation(_))));
    assert!(!db.indexes.contains_key("u"));
}

#[test]
fn drop_missing_index_is_an_error() {
    let mut db = Database::new("test".to_string());
    let r = IndexExecutor::drop_index(&mut db, "nothing".to_string());
    assert!(matches!(r, Err(DatabaseError::ParseError(ref m)) if m == "Index 'nothing' does not exist"));
}

#[test]
fn prefix_search_stops_at_column_boundaries() {
    let mut idx = BTreeIndex::new_composite(
        "idx_city_age".to_string(),
        "users".to_string(),
        vec!["city".to_string(), "age".to_string()],
        false,
    );
    idx.insert_composite(&[Value::Text("NYC".to_string()), Value::Integer(30)], 0).unwrap();
    idx.insert_composite(&[Value::Text("NY".to_string()), Value::Integer(25)], 1).unwrap();
    assert_eq!(idx.search_prefix(&[Value::Text("NY".to_string())]), vec![1]);
    assert_eq!(idx.search_prefix(&[Value::Text("NYC".to_string())]), vec![0]);
    assert_eq!(idx.search_prefix(&[Value::Text("NY".to_string()), Value::Integer(25)]), vec![1]);
    assert_eq!(idx.search_prefix(&[]), Vec::<usize>::new());
}

#[test]
fn hash_keys_tell_value_types_apart() {
    let mut idx = HashIndex::new("i".to_string(), "t".to_string(), "c".to_string(), false);
    idx.insert(&Value::Integer(1), 0).unwrap();
    assert_eq!(idx.search(&Value::Integer(1)), vec![0]);
    assert_eq!(idx.search(&Value::Text("1".to_string())), Vec::<usize>::new());
}

#[test]
fn different_texts_file_under_different_hash_keys() {
    let mut idx = HashIndex::new("i".to_string(), "t".to_string(), "c".to_string(), true);
    idx.insert(&Value::Text("a".to_string()), 0).unwrap();
    assert!(idx.insert(&Value::Text("b".to_string()), 1).is_ok());
    assert!(idx.insert(&Value::Char("a".to_string()), 2).is_ok());
    assert!(idx.insert(&Value::Text("a".to_string()), 3).is_err());
    assert_eq!(idx.search(&Value::Text("b".to_string())), vec![1]);
}
