use postgrustql::catalog::error::DatabaseError;
use postgrustql::catalog::value::Value;
use postgrustql::executor::QueryResult;
use postgrustql::executor::subquery::{SubqueryContext, SubqueryExecutor};

fn rows(cells: &[&[&str]], columns: &[&str]) -> QueryResult {
    QueryResult::Rows(
        cells.iter().map(|r| r.iter().map(|c| c.to_string()).collect()).collect(),
        columns.iter().map(|c| c.to_string()).collect(),
    )
}

#[test]
fn outer_value_by_column_name() {
    let ctx = SubqueryContext::with_outer_row(
        vec!["id".to_string(), "name".to_string()],
        vec![Value::Integer(7), Value::Text("Ann".to_string())],
    );
    assert_eq!(ctx.get_outer_value("name"), Some(&Value::Text("Ann".to_string())));
    assert_eq!(ctx.get_outer_value("id"), Some(&Value::Integer(7)));
    assert_eq!(ctx.get_outer_value("age"), None);
}

#[test]
fn outer_value_beyond_the_row_is_absent() {
    let ctx = SubqueryContext::with_outer_row(vec!["a".to_string(), "b".to_string()], vec![Value::Integer(1)]);
    assert_eq!(ctx.get_outer_value("b"), None);
    assert_eq!(ctx.get_outer_value("a"), Some(&Value::Integer(1)));
}

#[test]
fn outer_value_takes_the_first_column_of_a_name() {
    let ctx = SubqueryContext::with_outer_row(
        vec!["x".to_string(), "x".to_string()],
        vec![Value::Integer(1), Value::Integer(2)],
    );
    assert_eq!(ctx.get_outer_value("x"), Some(&Value::Integer(1)));
}

#[test]
fn empty_context_has_no_outer_values() {
    let ctx = SubqueryContext::default();
    assert!(ctx.outer_columns.is_empty());
    assert!(ctx.outer_row.is_empty());
    assert_eq!(SubqueryContext::new().get_outer_value("id"), None);
}

#[test]
fn scalar_subquery_values() {
    assert_eq!(SubqueryExecutor::scalar_of(rows(&[&["42"]], &["max"])), Ok(Value::Text("42".to_string())));
}

#[test]
fn scalar_subquery_errors() {
    assert_eq!(
        SubqueryExecutor::scalar_of(rows(&[], &["max"])),
        Err(DatabaseError::ParseError("Scalar subquery returned no rows".to_string()))
    );
    assert_eq!(
        SubqueryExecutor::scalar_of(rows(&[&["1"], &["2"]], &["id"])),
        Err(DatabaseError::ParseError("Scalar subquery returned more than one row".to_string()))
    );
    assert_eq!(
        SubqueryExecutor::scalar_of(rows(&[&["1", "2"]], &["a", "b"])),
        Err(DatabaseError::ParseError("Scalar subquery returned more than one column".to_string()))
    );
    assert_eq!(
        SubqueryExecutor::scalar_of(QueryResult::Success("done".to_string())),
        Err(DatabaseError::ParseError("Scalar subquery did not return rows".to_string()))
    );
}

#[test]
fn exists_subquery() {
    assert!(SubqueryExecutor::exists_of(&rows(&[&["1"]], &["id"])));
    assert!(!SubqueryExecutor::exists_of(&rows(&[], &["id"])));
    assert!(!SubqueryExecutor::exists_of(&QueryResult::Success("ok".to_string())));
}

#[test]
fn in_subquery_takes_first_column() {
    let values = SubqueryExecutor::in_list_of(&rows(&[&["1", "a"], &["2", "b"]], &["id", "name"]));
    assert_eq!(values, vec![Value::Text("1".to_string()), Value::Text("2".to_string())]);
    assert!(SubqueryExecutor::in_list_of(&rows(&[], &[])).is_empty());
    assert!(SubqueryExecutor::in_list_of(&QueryResult::Success("ok".to_string())).is_empty());
}
