use postgrustql::catalog::error::DatabaseError;
use postgrustql::catalog::database::Database;
use postgrustql::executor::queries::{AggregateFunction, CountTarget, QueryExecutor, SelectColumn};
use postgrustql::executor::routing::SelectRoute;
use postgrustql::executor::QueryResult;

fn rows(cells: &[&[&str]], columns: &[&str]) -> QueryResult {
    QueryResult::Rows(
        cells.iter().map(|r| r.iter().map(|c| c.to_string()).collect()).collect(),
        columns.iter().map(|c| c.to_string()).collect(),
    )
}

fn cells(r: Result<QueryResult, DatabaseError>) -> Vec<Vec<String>> {
    match r {
        Ok(QueryResult::Rows(rows, _)) => rows,
        other => panic!("expected rows, got {:?}", other),
    }
}

fn strings(cells: &[&[&str]]) -> Vec<Vec<String>> {
    cells.iter().map(|r| r.iter().map(|c| c.to_string()).collect()).collect()
}

#[test]
fn union_removes_repeats_in_first_occurrence_order() {
    let l = rows(&[&["1"], &["2"], &["1"]], &["id"]);
    let r = rows(&[&["3"], &["2"]], &["x"]);
    let out = QueryExecutor::union_of(l, r, false);
    assert_eq!(out, Ok(QueryResult::Rows(strings(&[&["1"], &["2"], &["3"]]), vec!["id".to_string()])));
}

#[test]
fn union_all_keeps_every_row() {
    let l = rows(&[&["1"], &["2"]], &["id"]);
    let r = rows(&[&["2"], &["1"]], &["id"]);
    assert_eq!(cells(QueryExecutor::union_of(l, r, true)), strings(&[&["1"], &["2"], &["2"], &["1"]]));
}

#[test]
fn intersect_keeps_common_rows_once() {
    let l = rows(&[&["1", "a"], &["2", "b"], &["1", "a"], &["3", "c"]], &["id", "name"]);
    let r = rows(&[&["3", "c"], &["1", "a"], &["2", "x"]], &["id", "name"]);
    assert_eq!(cells(QueryExecutor::intersect_of(l, r)), strings(&[&["1", "a"], &["3", "c"]]));
}

#[test]
fn except_keeps_left_only_rows_once() {
    let l = rows(&[&["1"], &["2"], &["2"], &["3"]], &["id"]);
    let r = rows(&[&["3"]], &["id"]);
    assert_eq!(cells(QueryExecutor::except_of(l, r)), strings(&[&["1"], &["2"]]));
}

#[test]
fn compound_queries_need_equal_column_counts() {
    let l = rows(&[&["1", "a"]], &["id", "name"]);
    let r = rows(&[&["1"]], &["id"]);
    assert_eq!(
        QueryExecutor::union_of(l, r, false),
        Err(DatabaseError::ParseError("UNION queries must have same number of columns: 2 vs 1".to_string()))
    );
    let l = rows(&[], &["id"]);
    let r = rows(&[], &["a", "b", "c"]);
    assert_eq!(
        QueryExecutor::except_of(l, r),
        Err(DatabaseError::ParseError("EXCEPT queries must have same number of columns: 1 vs 3".to_string()))
    );
}

#[test]
fn compound_queries_need_rows_on_both_sides() {
    let ok = QueryResult::Success("CREATE TABLE".to_string());
    assert_eq!(
        QueryExecutor::intersect_of(ok.clone(), rows(&[], &["id"])),
        Err(DatabaseError::ParseError("INTERSECT requires SELECT queries".to_string()))
    );
    assert_eq!(
        QueryExecutor::union_of(rows(&[], &["id"]), ok, true),
        Err(DatabaseError::ParseError("UNION requires SELECT queries".to_string()))
    );
}

#[test]
fn select_routes_in_order() {
    let mut db = Database::new("test".to_string());
    db.views.insert("adults".to_string(), "SELECT * FROM users WHERE age > 17".to_string());
    let plain = vec![SelectColumn::Regular("id".to_string())];
    let counted = vec![SelectColumn::Regular("id".to_string()), SelectColumn::Aggregate(AggregateFunction::Count(CountTarget::All))];
    assert_eq!(QueryExecutor::select_route(&db, "pg_catalog.pg_class", true, &counted, true), SelectRoute::SystemCatalog);
    assert_eq!(
        QueryExecutor::select_route(&db, "adults", true, &plain, false),
        SelectRoute::View("SELECT * FROM users WHERE age > 17".to_string())
    );
    assert_eq!(QueryExecutor::select_route(&db, "users", true, &counted, true), SelectRoute::Join);
    assert_eq!(QueryExecutor::select_route(&db, "users", false, &counted, true), SelectRoute::Grouped);
    assert_eq!(QueryExecutor::select_route(&db, "users", false, &counted, false), SelectRoute::Aggregate);
    assert_eq!(QueryExecutor::select_route(&db, "users", false, &plain, false), SelectRoute::Regular);
}
