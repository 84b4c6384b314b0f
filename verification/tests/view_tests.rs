use postgrustql::catalog::value::Value;
use postgrustql::executor::dispatch::{ServerCommand, Statement, StatementRoute};
use postgrustql::executor::queries::{QueryExecutor, SelectColumn};
use postgrustql::executor::routing::SelectRoute;
use postgrustql::catalog::column::Column;
use postgrustql::catalog::data_type::DataType;
use postgrustql::catalog::database::Database;
use postgrustql::catalog::error::DatabaseError;
use postgrustql::catalog::table::Table;
use postgrustql::executor::ddl::DdlExecutor;
use postgrustql::executor::QueryResult;

fn db_with_users() -> Database {
    let mut db = Database::new("test".to_string());
    let id = Column {
        name: "id".to_string(),
        data_type: DataType::Integer,
        nullable: false,
        primary_key: true,
        unique: false,
        foreign_key: None,
    };
    db.create_table(Table::new("users".to_string(), vec![id])).unwrap();
    db
}

#[test]
fn create_and_drop_view() {
    let mut db = db_with_users();
    let r = DdlExecutor::create_view(&mut db, "ids".to_string(), "SELECT id FROM users".to_string(), Ok(()));
    assert_eq!(r, Ok(QueryResult::Success("View 'ids' created".to_string())));
    assert_eq!(db.views.get("ids"), Some(&"SELECT id FROM users".to_string()));
    let again = DdlExecutor::create_view(&mut db, "ids".to_string(), "SELECT 1".to_string(), Ok(()));
    assert_eq!(again, Err(DatabaseError::ParseError("View 'ids' already exists".to_string())));
    assert_eq!(db.views.get("ids"), Some(&"SELECT id FROM users".to_string()));
    assert_eq!(DdlExecutor::drop_view(&mut db, "ids".to_string()), Ok(QueryResult::Success("View 'ids' dropped".to_string())));
    assert_eq!(db.views.get("ids"), None);
    assert_eq!(
        DdlExecutor::drop_view(&mut db, "ids".to_string()),
        Err(DatabaseError::ParseError("View 'ids' does not exist".to_string()))
    );
}

#[test]
fn view_named_like_a_table_is_refused() {
    let mut db = db_with_users();
    let r = DdlExecutor::create_view(&mut db, "users".to_string(), "SELECT 1".to_string(), Ok(()));
    assert_eq!(r, Err(DatabaseError::ParseError("Table 'users' already exists with that name".to_string())));
    assert!(db.views.is_empty());
}

#[test]
fn view_whose_query_did_not_parse_is_refused() {
    let mut db = db_with_users();
    let r = DdlExecutor::create_view(&mut db, "v".to_string(), "SELEC".to_string(), Err("Unexpected token".to_string()));
    assert_eq!(r, Err(DatabaseError::ParseError("Unexpected token".to_string())));
    assert!(db.views.is_empty());
}

#[test]
fn create_type_defines_an_enum_once() {
    let mut db = Database::new("test".to_string());
    let labels = vec!["happy".to_string(), "sad".to_string()];
    assert_eq!(
        DdlExecutor::create_type(&mut db, "mood".to_string(), labels.clone()),
        Ok(QueryResult::Success("Type 'mood' created successfully".to_string()))
    );
    assert_eq!(db.enums.get("mood"), Some(&labels));
    assert_eq!(
        DdlExecutor::create_type(&mut db, "mood".to_string(), vec![]),
        Err(DatabaseError::ParseError("Enum 'mood' already exists".to_string()))
    );
}


#[test]
fn statements_route_to_their_executors() {
    let db = db_with_users();
    assert_eq!(QueryExecutor::route_statement(&db, &Statement::ShowTables), StatementRoute::Ddl);
    let insert = Statement::Insert { table: "users".to_string(), columns: None, values: vec![Value::Integer(1)] };
    assert_eq!(QueryExecutor::route_statement(&db, &insert), StatementRoute::Dml);
    let select = Statement::Select {
        distinct: false,
        columns: vec![SelectColumn::Regular("id".to_string())],
        from: "users".to_string(),
        joins: vec![],
        filter: None,
        group_by: None,
        order_by: None,
        limit: None,
        offset: None,
    };
    assert_eq!(QueryExecutor::route_statement(&db, &select), StatementRoute::Query(SelectRoute::Regular));
    assert_eq!(QueryExecutor::route_statement(&db, &Statement::Vacuum { table: None }), StatementRoute::Vacuum);
    assert_eq!(QueryExecutor::route_statement(&db, &Statement::DropView { name: "v".to_string() }), StatementRoute::View);
}

#[test]
fn server_commands_and_taken_view_names_are_refused() {
    let db = db_with_users();
    assert_eq!(
        QueryExecutor::route_statement(&db, &Statement::Server(ServerCommand::Transaction)),
        StatementRoute::Refused(DatabaseError::ParseError("Transaction commands should not reach executor".to_string()))
    );
    assert_eq!(
        QueryExecutor::route_statement(&db, &Statement::Server(ServerCommand::Metadata)),
        StatementRoute::Refused(DatabaseError::ParseError("Metadata queries should be handled at server level".to_string()))
    );
    let view = Statement::CreateView { name: "users".to_string(), query: "SELECT 1".to_string() };
    assert_eq!(
        QueryExecutor::route_statement(&db, &view),
        StatementRoute::Refused(DatabaseError::ParseError("Table 'users' already exists with that name".to_string()))
    );
    let free = Statement::CreateView { name: "v".to_string(), query: "SELECT 1".to_string() };
    assert_eq!(QueryExecutor::route_statement(&db, &free), StatementRoute::View);
}
