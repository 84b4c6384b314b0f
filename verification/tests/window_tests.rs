use postgrustql::catalog::column::Column;
use postgrustql::catalog::data_type::DataType;
use postgrustql::catalog::error::DatabaseError;
use postgrustql::catalog::row::Row;
use postgrustql::catalog::value::Value;
use postgrustql::executor::queries::SortOrder;
use postgrustql::executor::window::{WindowFunction, WindowFunctionExecutor, WindowSpec};

fn columns() -> Vec<Column> {
    vec![
        Column { name: "dept".to_string(), data_type: DataType::Text, nullable: false, primary_key: false, unique: false, foreign_key: None },
        Column { name: "name".to_string(), data_type: DataType::Text, nullable: false, primary_key: false, unique: false, foreign_key: None },
        Column { name: "salary".to_string(), data_type: DataType::Integer, nullable: false, primary_key: false, unique: false, foreign_key: None },
    ]
}

fn staff() -> Vec<Row> {
    [("eng", "ann", 300), ("ops", "bob", 200), ("eng", "cy", 100), ("eng", "dee", 300), ("ops", "eve", 250)]
        .iter()
        .map(|(d, n, s)| Row::new(vec![Value::Text(d.to_string()), Value::Text(n.to_string()), Value::Integer(*s)]))
        .collect()
}

fn run(f: WindowFunction, partition: &[&str], order: &[(&str, SortOrder)]) -> Result<Vec<String>, DatabaseError> {
    let rows = staff();
    let refs: Vec<&Row> = rows.iter().collect();
    let spec = WindowSpec {
        partition_by: partition.iter().map(|p| p.to_string()).collect(),
        order_by: order.iter().map(|(c, d)| (c.to_string(), *d)).collect(),
    };
    WindowFunctionExecutor::execute(&f, &spec, &refs, &columns())
}

#[test]
fn row_number_within_partitions() {
    let r = run(WindowFunction::RowNumber, &["dept"], &[("salary", SortOrder::Desc)]).unwrap();
    // eng: ann 300, dee 300, cy 100 (ties keep row order); ops: eve 250, bob 200
    assert_eq!(r, vec!["1", "2", "3", "2", "1"]);
}

#[test]
fn rank_and_dense_rank_share_ties() {
    let rank = run(WindowFunction::Rank, &[], &[("salary", SortOrder::Desc)]).unwrap();
    // order: ann 300, dee 300, eve 250, bob 200, cy 100 (texts compared: "300" > "250" > "200" > "100")
    assert_eq!(rank, vec!["1", "4", "5", "1", "3"]);
    let dense = run(WindowFunction::DenseRank, &[], &[("salary", SortOrder::Desc)]).unwrap();
    assert_eq!(dense, vec!["1", "3", "4", "1", "2"]);
}

#[test]
fn ordering_compares_rendered_text() {
    let rows = vec![
        Row::new(vec![Value::Text("x".to_string()), Value::Text("a".to_string()), Value::Integer(9)]),
        Row::new(vec![Value::Text("x".to_string()), Value::Text("b".to_string()), Value::Integer(10)]),
    ];
    let refs: Vec<&Row> = rows.iter().collect();
    let spec = WindowSpec { partition_by: vec![], order_by: vec![("salary".to_string(), SortOrder::Asc)] };
    let r = WindowFunctionExecutor::execute(&WindowFunction::RowNumber, &spec, &refs, &columns()).unwrap();
    assert_eq!(r, vec!["2", "1"]);
}

#[test]
fn lag_and_lead_read_neighbours() {
    let lag = run(WindowFunction::Lag("name".to_string(), None), &["dept"], &[("name", SortOrder::Asc)]).unwrap();
    assert_eq!(lag, vec!["NULL", "NULL", "ann", "cy", "bob"]);
    let lead = run(WindowFunction::Lead("name".to_string(), Some(2)), &[], &[("name", SortOrder::Asc)]).unwrap();
    // order: ann, bob, cy, dee, eve
    assert_eq!(lead, vec!["cy", "dee", "eve", "NULL", "NULL"]);
    let lag0 = run(WindowFunction::Lag("name".to_string(), Some(-3)), &[], &[]).unwrap();
    assert_eq!(lag0, vec!["ann", "bob", "cy", "dee", "eve"]);
}

#[test]
fn unknown_columns_are_refused_in_order() {
    assert_eq!(
        run(WindowFunction::RowNumber, &["team"], &[("pay", SortOrder::Asc)]),
        Err(DatabaseError::ParseError("Unknown column: team".to_string()))
    );
    assert_eq!(
        run(WindowFunction::RowNumber, &["dept"], &[("pay", SortOrder::Asc)]),
        Err(DatabaseError::ParseError("Unknown column: pay".to_string()))
    );
    assert_eq!(
        run(WindowFunction::Lead("age".to_string(), None), &[], &[]),
        Err(DatabaseError::ParseError("Unknown column: age".to_string()))
    );
}

#[test]
fn no_rows_give_no_values() {
    let refs: Vec<&Row> = Vec::new();
    let spec = WindowSpec { partition_by: vec!["nope".to_string()], order_by: vec![] };
    assert_eq!(WindowFunctionExecutor::execute(&WindowFunction::Rank, &spec, &refs, &columns()), Ok(vec![]));
}
