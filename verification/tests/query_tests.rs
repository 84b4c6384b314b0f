use postgrustql::catalog::column::Column;
use postgrustql::catalog::data_type::DataType;
use postgrustql::catalog::database::Database;
use postgrustql::catalog::error::DatabaseError;
use postgrustql::catalog::row::{Row, Snapshot};
use postgrustql::catalog::table::Table;
use postgrustql::catalog::value::Value;
use postgrustql::executor::QueryResult;
use postgrustql::executor::conditions::Condition;
use postgrustql::executor::indexes::IndexExecutor;
use postgrustql::executor::queries::{
    AggregateFunction, AggregateValue, CaseExpression, CountTarget, JoinClause, JoinType, QueryExecutor, SelectColumn, SortOrder,
    WhenClause,
};
use postgrustql::index::IndexType;

fn column(name: &str, data_type: DataType, nullable: bool, primary_key: bool) -> Column {
    Column { name: name.to_string(), data_type, nullable, primary_key, unique: false, foreign_key: None }
}

fn users_db(people: &[(i64, &str, i64)]) -> Database {
    let mut db = Database::new("test".to_string());
    let mut table = Table::new(
        "users".to_string(),
        vec![
            column("id", DataType::Integer, false, true),
            column("name", DataType::Text, false, false),
            column("age", DataType::Integer, true, false),
        ],
    );
    for (id, name, age) in people {
        table.rows.push(Row::new(vec![Value::Integer(*id), Value::Text(name.to_string()), Value::Integer(*age)]));
    }
    db.create_table(table).unwrap();
    db
}

fn snapshot() -> Snapshot {
    Snapshot::new(1, 100, vec![])
}

fn all() -> Vec<SelectColumn> {
    vec![SelectColumn::Regular("*".to_string())]
}

fn select(
    db: &Database,
    distinct: bool,
    columns: Vec<SelectColumn>,
    filter: Option<Condition>,
    order_by: Option<(&str, SortOrder)>,
    limit: Option<usize>,
    offset: Option<usize>,
) -> Result<QueryResult, DatabaseError> {
    QueryExecutor::select_regular(
        db,
        distinct,
        columns,
        "users".to_string(),
        filter,
        order_by.map(|(c, d)| (c.to_string(), d)),
        limit,
        offset,
        &snapshot(),
    )
}

fn rows_of(r: Result<QueryResult, DatabaseError>) -> (Vec<Vec<String>>, Vec<String>) {
    match r.unwrap() {
        QueryResult::Rows(rows, cols) => (rows, cols),
        _ => panic!("Expected Rows"),
    }
}

fn names(rows: &[Vec<String>]) -> Vec<String> {
    rows.iter().map(|r| r[1].clone()).collect()
}

#[test]
fn select_all_returns_every_visible_row() {
    let db = users_db(&[(1, "Alice", 30), (2, "Bob", 25)]);
    let (rows, cols) = rows_of(select(&db, false, all(), None, None, None, None));
    assert_eq!(cols, vec!["id", "name", "age"]);
    assert_eq!(rows, vec![vec!["1", "Alice", "30"], vec!["2", "Bob", "25"]]);
}

#[test]
fn select_with_filter_and_columns() {
    let db = users_db(&[(1, "Alice", 30), (2, "Bob", 25), (3, "Charlie", 35)]);
    let filter = Some(Condition::GreaterThan("age".to_string(), Value::Integer(28)));
    let cols = vec![SelectColumn::Regular("name".to_string())];
    let (rows, heads) = rows_of(select(&db, false, cols, filter, None, None, None));
    assert_eq!(heads, vec!["name"]);
    assert_eq!(rows, vec![vec!["Alice"], vec!["Charlie"]]);
}

#[test]
fn order_by_age_ascending_and_descending() {
    let db = users_db(&[(1, "Charlie", 35), (2, "Alice", 30), (3, "Bob", 25)]);
    let (rows, _) = rows_of(select(&db, false, all(), None, Some(("age", SortOrder::Asc)), None, None));
    assert_eq!(names(&rows), vec!["Bob", "Alice", "Charlie"]);
    let (rows, _) = rows_of(select(&db, false, all(), None, Some(("age", SortOrder::Desc)), None, None));
    assert_eq!(names(&rows), vec!["Charlie", "Alice", "Bob"]);
}

#[test]
fn order_by_keeps_ties_in_row_order() {
    let db = users_db(&[(1, "Dan", 30), (2, "Eve", 25), (3, "Fay", 30), (4, "Gus", 25)]);
    let (rows, _) = rows_of(select(&db, false, all(), None, Some(("age", SortOrder::Asc)), None, None));
    assert_eq!(names(&rows), vec!["Eve", "Gus", "Dan", "Fay"]);
    let (rows, _) = rows_of(select(&db, false, all(), None, Some(("age", SortOrder::Desc)), None, None));
    assert_eq!(names(&rows), vec!["Dan", "Fay", "Eve", "Gus"]);
}

#[test]
fn order_by_text_and_nulls_first() {
    let mut db = users_db(&[(1, "bob", 1), (2, "Bob", 2), (3, "alice", 3)]);
    let t = db.get_table_mut("users").unwrap();
    t.rows.push(Row::new(vec![Value::Integer(4), Value::Text("zed".to_string()), Value::Null]));
    let (rows, _) = rows_of(select(&db, false, all(), None, Some(("name", SortOrder::Asc)), None, None));
    assert_eq!(names(&rows), vec!["Bob", "alice", "bob", "zed"]);
    let (rows, _) = rows_of(select(&db, false, all(), None, Some(("age", SortOrder::Asc)), None, None));
    assert_eq!(names(&rows), vec!["zed", "bob", "Bob", "alice"]);
}

#[test]
fn limit_and_offset_cut_the_result() {
    let db = users_db(&[(1, "Charlie", 35), (2, "Alice", 30), (3, "Bob", 25)]);
    let (rows, _) = rows_of(select(&db, false, all(), None, None, Some(2), None));
    assert_eq!(rows.len(), 2);
    let (rows, _) = rows_of(select(&db, false, all(), None, Some(("age", SortOrder::Desc)), Some(2), None));
    assert_eq!(names(&rows), vec!["Charlie", "Alice"]);
    let (rows, _) = rows_of(select(&db, false, all(), None, Some(("age", SortOrder::Asc)), Some(1), Some(1)));
    assert_eq!(names(&rows), vec!["Alice"]);
    let (rows, _) = rows_of(select(&db, false, all(), None, None, None, Some(5)));
    assert!(rows.is_empty());
}

#[test]
fn distinct_keeps_first_occurrences() {
    let db = users_db(&[(1, "Ann", 30), (2, "Bob", 25), (3, "Ann", 40), (4, "Bob", 50)]);
    let cols = vec![SelectColumn::Regular("name".to_string())];
    let (rows, _) = rows_of(select(&db, true, cols, None, None, None, None));
    assert_eq!(rows, vec![vec!["Ann"], vec!["Bob"]]);
}

#[test]
fn invisible_versions_are_not_selected() {
    let mut db = users_db(&[(1, "Alice", 30)]);
    let t = db.get_table_mut("users").unwrap();
    t.rows.push(Row { values: vec![Value::Integer(2), Value::Text("Old".to_string()), Value::Integer(1)], xmin: 0, xmax: Some(5) });
    t.rows.push(Row { values: vec![Value::Integer(3), Value::Text("Late".to_string()), Value::Integer(1)], xmin: 200, xmax: None });
    let (rows, _) = rows_of(select(&db, false, all(), None, None, None, None));
    assert_eq!(names(&rows), vec!["Alice"]);
}

#[test]
fn unknown_columns_are_errors() {
    let db = users_db(&[(1, "Alice", 30)]);
    let cols = vec![SelectColumn::Regular("salary".to_string())];
    assert_eq!(
        select(&db, false, cols, None, None, None, None),
        Err(DatabaseError::ParseError("Unknown column: salary".to_string()))
    );
    assert_eq!(
        select(&db, false, all(), None, Some(("salary", SortOrder::Asc)), None, None),
        Err(DatabaseError::ParseError("Unknown column: salary".to_string()))
    );
    let filter = Some(Condition::Equals("salary".to_string(), Value::Integer(1)));
    assert_eq!(
        select(&db, false, all(), filter, None, None, None),
        Err(DatabaseError::ParseError("Unknown column: salary".to_string()))
    );
    let r = QueryExecutor::select_regular(&db, false, all(), "nope".to_string(), None, None, None, None, &snapshot());
    assert_eq!(r, Err(DatabaseError::TableNotFound("nope".to_string())));
}

#[test]
fn case_expression_column() {
    let db = users_db(&[(1, "Alice", 30), (2, "Bob", 15)]);
    let case = CaseExpression {
        when_clauses: vec![WhenClause {
            condition: Condition::GreaterThanOrEqual("age".to_string(), Value::Integer(18)),
            result: Value::Text("adult".to_string()),
        }],
        else_value: Some(Value::Text("minor".to_string())),
        alias: Some("kind".to_string()),
    };
    let cols = vec![SelectColumn::Regular("name".to_string()), SelectColumn::Case(case)];
    let (rows, heads) = rows_of(select(&db, false, cols, None, None, None, None));
    assert_eq!(heads, vec!["name", "kind"]);
    assert_eq!(rows, vec![vec!["Alice", "adult"], vec!["Bob", "minor"]]);
}

#[test]
fn case_without_else_or_alias() {
    let db = users_db(&[(1, "Alice", 30)]);
    let case = CaseExpression {
        when_clauses: vec![WhenClause {
            condition: Condition::LessThan("age".to_string(), Value::Integer(18)),
            result: Value::Text("minor".to_string()),
        }],
        else_value: None,
        alias: None,
    };
    let (rows, heads) = rows_of(select(&db, false, vec![SelectColumn::Case(case)], None, None, None, None));
    assert_eq!(heads, vec!["case"]);
    assert_eq!(rows, vec![vec!["NULL"]]);
}

#[test]
fn equality_filter_reads_through_an_index() {
    let mut db = users_db(&[(1, "Alice", 30), (2, "Bob", 25), (3, "Cy", 30)]);
    IndexExecutor::create_index(&mut db, "idx_age".to_string(), "users".to_string(), vec!["age".to_string()], false, IndexType::Hash)
        .unwrap();
    let filter = Some(Condition::Equals("age".to_string(), Value::Integer(30)));
    let (rows, _) = rows_of(select(&db, false, all(), filter, None, None, None));
    assert_eq!(names(&rows), vec!["Alice", "Cy"]);
}

#[test]
fn composite_index_serves_a_chain_of_equalities() {
    let mut db = users_db(&[(1, "Alice", 30), (2, "Bob", 25), (3, "Alice", 25)]);
    IndexExecutor::create_index(
        &mut db,
        "idx_name_age".to_string(),
        "users".to_string(),
        vec!["name".to_string(), "age".to_string()],
        false,
        IndexType::BTree,
    )
    .unwrap();
    let filter = Some(Condition::And(
        Box::new(Condition::Equals("age".to_string(), Value::Integer(25))),
        Box::new(Condition::Equals("name".to_string(), Value::Text("Alice".to_string()))),
    ));
    let (rows, _) = rows_of(select(&db, false, all(), filter, None, None, None));
    assert_eq!(rows, vec![vec!["3", "Alice", "25"]]);
}

#[test]
fn range_filter_through_an_index_looks_up_the_bound_only() {
    let mut db = users_db(&[(1, "Alice", 30), (2, "Bob", 25), (3, "Cy", 35)]);
    IndexExecutor::create_index(&mut db, "idx_age".to_string(), "users".to_string(), vec!["age".to_string()], false, IndexType::BTree)
        .unwrap();
    let filter = Some(Condition::GreaterThan("age".to_string(), Value::Integer(28)));
    let (rows, _) = rows_of(select(&db, false, all(), filter, None, None, None));
    assert!(rows.is_empty());
}

fn aggregate(db: &Database, columns: Vec<SelectColumn>, filter: Option<Condition>) -> Result<(Vec<AggregateValue>, Vec<String>), DatabaseError> {
    QueryExecutor::select_aggregate(db, false, columns, "users".to_string(), filter, &snapshot())
}

fn text(v: &AggregateValue) -> String {
    match v {
        AggregateValue::Text(s) => s.clone(),
        other => panic!("expected text, got {:?}", other),
    }
}

#[test]
fn count_sum_min_max() {
    let db = users_db(&[(1, "Alice", 30), (2, "Bob", 25), (3, "Charlie", 35)]);
    let cols = vec![
        SelectColumn::Aggregate(AggregateFunction::Count(CountTarget::All)),
        SelectColumn::Aggregate(AggregateFunction::Sum("age".to_string())),
        SelectColumn::Aggregate(AggregateFunction::Min("age".to_string())),
        SelectColumn::Aggregate(AggregateFunction::Max("name".to_string())),
    ];
    let (vals, heads) = aggregate(&db, cols, None).unwrap();
    assert_eq!(heads, vec!["count", "sum(age)", "min(age)", "max(name)"]);
    let shown: Vec<String> = vals.iter().map(text).collect();
    assert_eq!(shown, vec!["3", "90", "25", "Charlie"]);
}

#[test]
fn aggregates_with_where_and_nulls() {
    let mut db = users_db(&[(1, "Alice", 30), (2, "Bob", 25), (3, "Charlie", 35)]);
    let t = db.get_table_mut("users").unwrap();
    t.rows.push(Row::new(vec![Value::Integer(4), Value::Text("Dee".to_string()), Value::Null]));
    let filter = Some(Condition::GreaterThan("id".to_string(), Value::Integer(1)));
    let cols = vec![
        SelectColumn::Aggregate(AggregateFunction::Count(CountTarget::Column("age".to_string()))),
        SelectColumn::Aggregate(AggregateFunction::Count(CountTarget::All)),
        SelectColumn::Aggregate(AggregateFunction::Sum("age".to_string())),
    ];
    let (vals, _) = aggregate(&db, cols, filter).unwrap();
    let shown: Vec<String> = vals.iter().map(text).collect();
    assert_eq!(shown, vec!["2", "3", "60"]);
}

#[test]
fn average_hands_back_the_numbers() {
    let db = users_db(&[(1, "Alice", 30), (2, "Bob", 25)]);
    let (vals, heads) = aggregate(&db, vec![SelectColumn::Aggregate(AggregateFunction::Avg("age".to_string()))], None).unwrap();
    assert_eq!(heads, vec!["avg(age)"]);
    match &vals[0] {
        AggregateValue::Mean(nums) => assert_eq!(nums, &vec![Value::Integer(30), Value::Integer(25)]),
        other => panic!("expected a mean, got {:?}", other),
    }
    let empty = users_db(&[]);
    let (vals, _) = aggregate(&empty, vec![SelectColumn::Aggregate(AggregateFunction::Avg("age".to_string()))], None).unwrap();
    assert_eq!(text(&vals[0]), "0");
    let (vals, _) = aggregate(&empty, vec![SelectColumn::Aggregate(AggregateFunction::Sum("age".to_string()))], None).unwrap();
    assert_eq!(text(&vals[0]), "0");
    let (vals, _) = aggregate(&empty, vec![SelectColumn::Aggregate(AggregateFunction::Min("age".to_string()))], None).unwrap();
    assert_eq!(text(&vals[0]), "NULL");
}

#[test]
fn aggregate_refusals() {
    let db = users_db(&[(1, "Alice", 30)]);
    let mixed = vec![SelectColumn::Aggregate(AggregateFunction::Count(CountTarget::All)), SelectColumn::Regular("name".to_string())];
    assert_eq!(
        aggregate(&db, mixed, None).unwrap_err(),
        DatabaseError::ParseError("Cannot mix aggregates with regular columns without GROUP BY".to_string())
    );
    let sum_text = vec![SelectColumn::Aggregate(AggregateFunction::Sum("name".to_string()))];
    assert_eq!(aggregate(&db, sum_text, None).unwrap_err(), DatabaseError::TypeMismatch);
    let unknown = vec![SelectColumn::Aggregate(AggregateFunction::Max("salary".to_string()))];
    assert_eq!(aggregate(&db, unknown, None).unwrap_err(), DatabaseError::ParseError("Unknown column: salary".to_string()));
}

fn products_db() -> Database {
    let mut db = Database::new("test".to_string());
    let mut table = Table::new(
        "products".to_string(),
        vec![
            column("id", DataType::Integer, false, true),
            column("category", DataType::Text, false, false),
            column("price", DataType::Integer, false, false),
        ],
    );
    for (id, cat, price) in [(1, "Electronics", 1000), (2, "Electronics", 500), (3, "Books", 20)] {
        table.rows.push(Row::new(vec![Value::Integer(id), Value::Text(cat.to_string()), Value::Integer(price)]));
    }
    db.create_table(table).unwrap();
    db
}

fn grouped(
    db: &Database,
    columns: Vec<SelectColumn>,
    filter: Option<Condition>,
    group_by: Vec<&str>,
) -> Result<(Vec<Vec<String>>, Vec<String>), DatabaseError> {
    let (rows, names) = QueryExecutor::select_with_group_by(
        db,
        columns,
        "products".to_string(),
        filter,
        group_by.iter().map(|g| g.to_string()).collect(),
        &snapshot(),
    )?;
    Ok((rows.iter().map(|r| r.iter().map(text).collect()).collect(), names))
}

#[test]
fn group_by_with_count_in_order_of_first_appearance() {
    let db = products_db();
    let cols = vec![
        SelectColumn::Regular("category".to_string()),
        SelectColumn::Aggregate(AggregateFunction::Count(CountTarget::All)),
    ];
    let (rows, names) = grouped(&db, cols, None, vec!["category"]).unwrap();
    assert_eq!(names, vec!["category", "count"]);
    assert_eq!(rows, vec![vec!["Electronics", "2"], vec!["Books", "1"]]);
}

#[test]
fn group_by_with_sum_and_where() {
    let db = products_db();
    let cols = vec![
        SelectColumn::Regular("category".to_string()),
        SelectColumn::Aggregate(AggregateFunction::Sum("price".to_string())),
    ];
    let (rows, names) = grouped(&db, cols, None, vec!["category"]).unwrap();
    assert_eq!(names, vec!["category", "sum(price)"]);
    assert_eq!(rows, vec![vec!["Electronics", "1500"], vec!["Books", "20"]]);
    let cols = vec![
        SelectColumn::Regular("category".to_string()),
        SelectColumn::Aggregate(AggregateFunction::Sum("price".to_string())),
    ];
    let filter = Some(Condition::GreaterThan("price".to_string(), Value::Integer(100)));
    let (rows, _) = grouped(&db, cols, filter, vec!["category"]).unwrap();
    assert_eq!(rows, vec![vec!["Electronics", "1500"]]);
}

#[test]
fn group_by_refusals() {
    let db = products_db();
    let cols = vec![SelectColumn::Regular("price".to_string())];
    assert_eq!(
        grouped(&db, cols, None, vec!["category"]).unwrap_err(),
        DatabaseError::ParseError(
            "Column 'price' must appear in GROUP BY clause or be used in an aggregate function".to_string()
        )
    );
    let cols = vec![SelectColumn::Aggregate(AggregateFunction::Count(CountTarget::All))];
    assert_eq!(grouped(&db, cols, None, vec!["colour"]).unwrap_err(), DatabaseError::ColumnNotFound("colour".to_string()));
}

#[test]
fn grouped_rows_are_ordered_deduplicated_and_cut() {
    let rows = vec![
        vec!["b".to_string(), "2".to_string()],
        vec!["a".to_string(), "10".to_string()],
        vec!["b".to_string(), "2".to_string()],
        vec!["c".to_string(), "1".to_string()],
    ];
    let names = vec!["k".to_string(), "n".to_string()];
    let out = QueryExecutor::finish_grouped(rows.clone(), &names, false, Some(("n".to_string(), SortOrder::Asc)), None, None).unwrap();
    assert_eq!(out, vec![vec!["c", "1"], vec!["a", "10"], vec!["b", "2"], vec!["b", "2"]]);
    let out = QueryExecutor::finish_grouped(rows.clone(), &names, true, Some(("k".to_string(), SortOrder::Desc)), Some(2), None).unwrap();
    assert_eq!(out, vec![vec!["c", "1"], vec!["b", "2"]]);
    let out = QueryExecutor::finish_grouped(rows.clone(), &names, false, None, None, Some(3)).unwrap();
    assert_eq!(out, vec![vec!["c", "1"]]);
    assert_eq!(
        QueryExecutor::finish_grouped(rows, &names, false, Some(("zz".to_string(), SortOrder::Asc)), None, None),
        Err(DatabaseError::ColumnNotFound("zz".to_string()))
    );
}

fn shop_db() -> Database {
    let mut db = users_db(&[(1, "Alice", 30), (2, "Bob", 25), (3, "Cy", 40)]);
    let mut orders = Table::new(
        "orders".to_string(),
        vec![column("oid", DataType::Integer, false, true), column("user_id", DataType::Integer, false, false)],
    );
    for (oid, uid) in [(10, 1), (11, 1), (12, 2), (13, 9)] {
        orders.rows.push(Row::new(vec![Value::Integer(oid), Value::Integer(uid)]));
    }
    db.create_table(orders).unwrap();
    db
}

fn join(kind: JoinType, on_left: &str, on_right: &str) -> Vec<JoinClause> {
    vec![JoinClause { join_type: kind, table: "orders".to_string(), on_left: on_left.to_string(), on_right: on_right.to_string() }]
}

#[test]
fn inner_join_pairs_matching_rows() {
    let db = shop_db();
    let r = QueryExecutor::select_with_join(&db, false, "users".to_string(), join(JoinType::Inner, "users.id", "orders.user_id"), None, None, &snapshot());
    let (rows, names) = rows_of(r);
    assert_eq!(names, vec!["users.id", "users.name", "users.age", "orders.oid", "orders.user_id"]);
    assert_eq!(
        rows,
        vec![
            vec!["1", "Alice", "30", "10", "1"],
            vec!["1", "Alice", "30", "11", "1"],
            vec!["2", "Bob", "25", "12", "2"],
        ]
    );
}

#[test]
fn left_and_right_joins_pad_with_nulls() {
    let db = shop_db();
    let r = QueryExecutor::select_with_join(&db, false, "users".to_string(), join(JoinType::Left, "orders.user_id", "users.id"), None, None, &snapshot());
    let (rows, _) = rows_of(r);
    assert_eq!(rows.len(), 4);
    assert_eq!(rows[3], vec!["3", "Cy", "40", "NULL", "NULL"]);
    let r = QueryExecutor::select_with_join(&db, false, "users".to_string(), join(JoinType::Right, "users.id", "orders.user_id"), None, None, &snapshot());
    let (rows, _) = rows_of(r);
    assert_eq!(rows.len(), 4);
    assert_eq!(rows[3], vec!["NULL", "NULL", "NULL", "13", "9"]);
}

#[test]
fn join_refusals() {
    let db = shop_db();
    let r = QueryExecutor::select_with_join(&db, false, "users".to_string(), join(JoinType::Inner, "id", "orders.user_id"), None, None, &snapshot());
    assert_eq!(r, Err(DatabaseError::ParseError("Invalid column reference: id".to_string())));
    let r = QueryExecutor::select_with_join(&db, false, "users".to_string(), join(JoinType::Inner, "users.uid", "orders.user_id"), None, None, &snapshot());
    assert_eq!(r, Err(DatabaseError::ColumnNotFound("uid".to_string())));
    let r = QueryExecutor::select_with_join(&db, false, "users".to_string(), vec![], None, None, &snapshot());
    assert_eq!(r, Err(DatabaseError::ParseError("Currently only one JOIN is supported".to_string())));
    let mut bad = join(JoinType::Inner, "users.id", "orders.user_id");
    bad[0].table = "nope".to_string();
    let r = QueryExecutor::select_with_join(&db, false, "users".to_string(), bad, None, None, &snapshot());
    assert_eq!(r, Err(DatabaseError::TableNotFound("nope".to_string())));
}
