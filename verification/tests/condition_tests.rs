use postgrustql::catalog::column::Column;
use postgrustql::catalog::data_type::DataType;
use postgrustql::catalog::error::DatabaseError;
use postgrustql::catalog::row::Row;
use postgrustql::catalog::value::Value;
use postgrustql::executor::conditions::{Condition, ConditionEvaluator};

fn create_test_columns() -> Vec<Column> {
    let col = |name: &str, data_type: DataType| Column {
        name: name.to_string(),
        data_type,
        nullable: false,
        primary_key: false,
        unique: false,
        foreign_key: None,
    };
    vec![col("id", DataType::Integer), col("name", DataType::Text), col("age", DataType::Integer)]
}

fn alice() -> Row {
    Row::new(vec![Value::Integer(1), Value::Text("Alice".to_string()), Value::Integer(30)])
}

fn holds(columns: &Vec<Column>, row: &Row, cond: &Condition) -> bool {
    ConditionEvaluator::evaluate_with_columns(columns, row, cond).unwrap()
}

fn text(s: &str) -> Value {
    Value::Text(s.to_string())
}

#[test]
fn test_equals_condition() {
    let columns = create_test_columns();
    let row = alice();
    assert!(holds(&columns, &row, &Condition::Equals("name".to_string(), text("Alice"))));
    assert!(!holds(&columns, &row, &Condition::Equals("name".to_string(), text("Bob"))));
}

#[test]
fn test_not_equals_condition() {
    let columns = create_test_columns();
    let row = alice();
    assert!(holds(&columns, &row, &Condition::NotEquals("age".to_string(), Value::Integer(25))));
    assert!(!holds(&columns, &row, &Condition::NotEquals("age".to_string(), Value::Integer(30))));
}

#[test]
fn test_greater_than_condition() {
    let columns = create_test_columns();
    let row = alice();
    assert!(holds(&columns, &row, &Condition::GreaterThan("age".to_string(), Value::Integer(25))));
    assert!(!holds(&columns, &row, &Condition::GreaterThan("age".to_string(), Value::Integer(35))));
}

#[test]
fn test_less_than_condition() {
    let columns = create_test_columns();
    let row = alice();
    assert!(holds(&columns, &row, &Condition::LessThan("age".to_string(), Value::Integer(35))));
    assert!(!holds(&columns, &row, &Condition::LessThan("age".to_string(), Value::Integer(25))));
}

#[test]
fn test_and_condition() {
    let columns = create_test_columns();
    let row = alice();
    let cond = Condition::And(
        Box::new(Condition::Equals("name".to_string(), text("Alice"))),
        Box::new(Condition::GreaterThan("age".to_string(), Value::Integer(25))),
    );
    assert!(holds(&columns, &row, &cond));
    let cond = Condition::And(
        Box::new(Condition::Equals("name".to_string(), text("Bob"))),
        Box::new(Condition::GreaterThan("age".to_string(), Value::Integer(25))),
    );
    assert!(!holds(&columns, &row, &cond));
}

#[test]
fn test_or_condition() {
    let columns = create_test_columns();
    let row = alice();
    let cond = Condition::Or(
        Box::new(Condition::Equals("name".to_string(), text("Bob"))),
        Box::new(Condition::GreaterThan("age".to_string(), Value::Integer(25))),
    );
    assert!(holds(&columns, &row, &cond));
    let cond = Condition::Or(
        Box::new(Condition::Equals("name".to_string(), text("Bob"))),
        Box::new(Condition::LessThan("age".to_string(), Value::Integer(25))),
    );
    assert!(!holds(&columns, &row, &cond));
}

#[test]
fn test_unknown_column() {
    let columns = create_test_columns();
    let row = alice();
    let cond = Condition::Equals("unknown".to_string(), Value::Integer(1));
    let result = ConditionEvaluator::evaluate_with_columns(&columns, &row, &cond);
    assert!(result.is_err());
}

#[test]
fn test_greater_than_or_equal() {
    let columns = create_test_columns();
    let row = alice();
    assert!(holds(&columns, &row, &Condition::GreaterThanOrEqual("age".to_string(), Value::Integer(30))));
    assert!(holds(&columns, &row, &Condition::GreaterThanOrEqual("age".to_string(), Value::Integer(25))));
    assert!(!holds(&columns, &row, &Condition::GreaterThanOrEqual("age".to_string(), Value::Integer(35))));
}

#[test]
fn test_less_than_or_equal() {
    let columns = create_test_columns();
    let row = alice();
    assert!(holds(&columns, &row, &Condition::LessThanOrEqual("age".to_string(), Value::Integer(30))));
    assert!(holds(&columns, &row, &Condition::LessThanOrEqual("age".to_string(), Value::Integer(35))));
    assert!(!holds(&columns, &row, &Condition::LessThanOrEqual("age".to_string(), Value::Integer(25))));
}

#[test]
fn test_between() {
    let columns = create_test_columns();
    let row = alice();
    assert!(holds(&columns, &row, &Condition::Between("age".to_string(), Value::Integer(25), Value::Integer(35))));
    assert!(holds(&columns, &row, &Condition::Between("age".to_string(), Value::Integer(30), Value::Integer(30))));
    assert!(!holds(&columns, &row, &Condition::Between("age".to_string(), Value::Integer(35), Value::Integer(40))));
    assert!(!holds(&columns, &row, &Condition::Between("age".to_string(), Value::Integer(10), Value::Integer(25))));
}

#[test]
fn test_like_pattern() {
    let columns = create_test_columns();
    let row = alice();
    assert!(holds(&columns, &row, &Condition::Like("name".to_string(), "A%".to_string())));
    assert!(holds(&columns, &row, &Condition::Like("name".to_string(), "%ice".to_string())));
    assert!(holds(&columns, &row, &Condition::Like("name".to_string(), "%li%".to_string())));
    assert!(holds(&columns, &row, &Condition::Like("name".to_string(), "A____".to_string())));
    assert!(!holds(&columns, &row, &Condition::Like("name".to_string(), "B%".to_string())));
    assert!(holds(&columns, &row, &Condition::Like("name".to_string(), "Alice".to_string())));
}

#[test]
fn test_in_list() {
    let columns = create_test_columns();
    let row = alice();
    let cond = Condition::In("age".to_string(), vec![Value::Integer(25), Value::Integer(30), Value::Integer(35)]);
    assert!(holds(&columns, &row, &cond));
    let cond = Condition::In("age".to_string(), vec![Value::Integer(20), Value::Integer(25)]);
    assert!(!holds(&columns, &row, &cond));
    let cond = Condition::In("name".to_string(), vec![text("Alice"), text("Bob")]);
    assert!(holds(&columns, &row, &cond));
}

#[test]
fn test_is_null() {
    let mut columns = create_test_columns();
    columns[1].nullable = true;
    let row_with_null = Row::new(vec![Value::Integer(1), Value::Null, Value::Integer(30)]);
    let row_without_null = alice();
    let cond = Condition::IsNull("name".to_string());
    assert!(holds(&columns, &row_with_null, &cond));
    assert!(!holds(&columns, &row_without_null, &cond));
}

#[test]
fn test_is_not_null() {
    let mut columns = create_test_columns();
    columns[1].nullable = true;
    let row_with_null = Row::new(vec![Value::Integer(1), Value::Null, Value::Integer(30)]);
    let row_without_null = alice();
    let cond = Condition::IsNotNull("name".to_string());
    assert!(!holds(&columns, &row_with_null, &cond));
    assert!(holds(&columns, &row_without_null, &cond));
}

#[test]
fn mismatched_types_are_reported() {
    let columns = create_test_columns();
    let row = alice();
    let r = ConditionEvaluator::evaluate_with_columns(&columns, &row, &Condition::GreaterThan("name".to_string(), Value::Integer(3)));
    assert!(matches!(r, Err(DatabaseError::TypeMismatch)));
}

#[test]
fn unknown_column_message_names_the_column() {
    let columns = create_test_columns();
    let row = alice();
    let r = ConditionEvaluator::evaluate_with_columns(&columns, &row, &Condition::IsNull("zip".to_string()));
    assert!(matches!(r, Err(DatabaseError::ParseError(ref m)) if m == "Unknown column: zip"));
}

#[test]
fn text_comparison_is_by_code_point() {
    let columns = create_test_columns();
    let row = alice();
    assert!(holds(&columns, &row, &Condition::LessThan("name".to_string(), text("Bob"))));
    assert!(holds(&columns, &row, &Condition::GreaterThan("name".to_string(), text("Al"))));
}
