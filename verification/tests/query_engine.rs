use oxtub::catalog::catalog::Catalog;
use oxtub::catalog::column::Column;
use oxtub::catalog::schema::Schema;
use oxtub::catalog::error::CatalogError;
use oxtub::catalog::types::SqlType;
use oxtub::database::{Database, DatabaseError};
use oxtub::query::binder::error::BinderError;
use oxtub::query::engine::{QueryEngine, QueryEngineError, QueryResult};
use oxtub::query::executor::engine::ExecutorRow;
use oxtub::query::expression::{BinaryOperator, ColumnQualifier, Expression, ParsedColumnRef, UnaryOperator};
use oxtub::query::statement::{
    CreateColumn, CreateTableStatement, DeleteStatement, ExplainStatement, InsertSource,
    InsertStatement, SelectItem, SelectStatement, Statement, UpdateStatement,
};
use oxtub::query::table_ref::{JoinType, TableRef};
use oxtub::types::value::Value;

fn col(name: &str) -> Expression {
    Expression::Column(ParsedColumnRef { qualifier: None, column: name.to_string() })
}

fn qcol(table: &str, name: &str) -> Expression {
    Expression::Column(ParsedColumnRef {
        qualifier: Some(ColumnQualifier::Table { table: table.to_string() }),
        column: name.to_string(),
    })
}

fn int_lit(i: i32) -> Expression {
    Expression::Literal(Value::Integer(i))
}

fn text(s: &str) -> Expression {
    Expression::Literal(Value::Varchar(s.to_string()))
}

fn boolean(b: bool) -> Expression {
    Expression::Literal(Value::Boolean(b))
}

fn bin(left: Expression, op: BinaryOperator, right: Expression) -> Expression {
    Expression::BinaryOp { left: Box::new(left), op, right: Box::new(right) }
}

fn eq(left: Expression, right: Expression) -> Expression {
    bin(left, BinaryOperator::Eq, right)
}

fn unary(op: UnaryOperator, expr: Expression) -> Expression {
    Expression::UnaryOp { op, expr: Box::new(expr) }
}

fn base(name: &str) -> TableRef {
    TableRef::BaseTable { table_name: name.to_string(), alias: None }
}

fn aliased(name: &str, alias: &str) -> TableRef {
    TableRef::BaseTable { table_name: name.to_string(), alias: Some(alias.to_string()) }
}

fn join(left: TableRef, right: TableRef, condition: Expression) -> TableRef {
    TableRef::Join {
        left: Box::new(left),
        right: Box::new(right),
        join_type: JoinType::Inner,
        condition: Some(condition),
    }
}

fn item(e: Expression) -> SelectItem {
    SelectItem::Expression(e)
}

fn select_stmt(table: TableRef, projection: Vec<SelectItem>, where_clause: Option<Expression>) -> SelectStatement {
    SelectStatement { table, projection, where_clause }
}

fn query(table: TableRef, projection: Vec<SelectItem>, where_clause: Option<Expression>) -> Statement {
    Statement::Select(select_stmt(table, projection, where_clause))
}

fn names(columns: Option<Vec<&str>>) -> Option<Vec<String>> {
    columns.map(|cs| cs.into_iter().map(|c| c.to_string()).collect())
}

fn insert_values(table: &str, columns: Option<Vec<&str>>, rows: Vec<Vec<Expression>>) -> Statement {
    Statement::Insert(InsertStatement {
        table_name: table.to_string(),
        columns: names(columns),
        source: InsertSource::Values(rows),
    })
}

fn insert_select(table: &str, columns: Option<Vec<&str>>, source: SelectStatement) -> Statement {
    Statement::Insert(InsertStatement {
        table_name: table.to_string(),
        columns: names(columns),
        source: InsertSource::Select(source),
    })
}

fn update(table: &str, assignments: Vec<(&str, Expression)>, where_clause: Option<Expression>) -> Statement {
    Statement::Update(UpdateStatement {
        table_name: table.to_string(),
        assignments: assignments.into_iter().map(|(c, e)| (c.to_string(), e)).collect(),
        where_clause,
    })
}

fn delete(table: &str, where_clause: Option<Expression>) -> Statement {
    Statement::Delete(DeleteStatement { table_name: table.to_string(), where_clause })
}

fn create_table_stmt(table: &str, columns: Vec<(&str, SqlType, Option<usize>)>, primary_key: Vec<&str>) -> Statement {
    Statement::CreateTable(CreateTableStatement {
        table_name: table.to_string(),
        columns: columns
            .into_iter()
            .map(|(name, sql_type, size)| CreateColumn { name: name.to_string(), sql_type, size })
            .collect(),
        primary_key: primary_key.into_iter().map(|c| c.to_string()).collect(),
    })
}

fn explain(raw: bool, statement: Statement) -> Statement {
    Statement::Explain(ExplainStatement { raw, statement: Box::new(statement) })
}

fn setup_engine(catalog: &mut Catalog) -> QueryEngine<'_> {
    let mut engine = QueryEngine::new(catalog);
    engine
        .execute_sql(create_table_stmt("users", vec![("id", SqlType::Integer, None), ("name", SqlType::Varchar, Some(32))], vec![]))
        .unwrap();
    engine
}

fn explain_plan(engine: &mut QueryEngine<'_>, statement: Statement) -> String {
    let QueryResult::Rows(result) = engine.execute_sql(statement).unwrap() else {
        panic!("EXPLAIN should return rows");
    };
    let Value::Varchar(plan) = &result.rows[0].values[0] else {
        panic!("EXPLAIN should return a VARCHAR plan");
    };

    plan.clone()
}

fn rows(res: Result<QueryResult, QueryEngineError>) -> Vec<ExecutorRow> {
    match res.unwrap() {
        QueryResult::Rows(r) => r.rows,
        QueryResult::Command { tag } => panic!("expected rows, got {tag}"),
    }
}

fn int_row(values: Vec<Value>) -> ExecutorRow {
    ExecutorRow { rid: None, values }
}

#[test]
fn explain_returns_optimized_plan_by_default() {
    let mut catalog = Catalog::new();
    let mut engine = setup_engine(&mut catalog);

    let plan = explain_plan(
        &mut engine,
        explain(false, query(base("users"), vec![item(col("id")), item(col("name"))], Some(eq(col("id"), int_lit(1))))),
    );

    assert!(plan.contains("SeqScan table=users filter=(#0.0 = 1)"));
    assert!(!plan.contains("Filter predicate="));
}

#[test]
fn explain_raw_returns_unoptimized_plan() {
    let mut catalog = Catalog::new();
    let mut engine = setup_engine(&mut catalog);

    let plan = explain_plan(
        &mut engine,
        explain(true, query(base("users"), vec![item(col("id")), item(col("name"))], Some(eq(col("id"), int_lit(1))))),
    );

    assert!(plan.contains("Filter predicate=(#0.0 = 1)"));
    assert!(plan.contains("SeqScan table=users"));
    assert!(!plan.contains("SeqScan table=users filter="));
}

#[test]
fn explain_result_has_one_varchar_column_as_wide_as_the_plan() {
    let mut catalog = Catalog::new();
    let mut engine = setup_engine(&mut catalog);
    let QueryResult::Rows(result) = engine.execute_sql(explain(false, query(base("users"), vec![item(col("id")), item(col("name"))], Some(eq(col("id"), int_lit(1)))))).unwrap() else {
        panic!("EXPLAIN should return rows");
    };
    assert_eq!(result.rows.len(), 1);
    assert_eq!(result.rows[0].rid, None);
    let Value::Varchar(plan) = &result.rows[0].values[0] else {
        panic!("EXPLAIN should return a VARCHAR plan");
    };
    assert_eq!(result.schema.columns.len(), 1);
    assert_eq!(result.schema.columns[0].name, "QUERY PLAN");
    assert_eq!(result.schema.columns[0].declared_size(), plan.len());
    assert!(!plan.ends_with('\n'));
}

#[test]
fn explain_of_create_table_is_unsupported() {
    let mut catalog = Catalog::new();
    let mut engine = QueryEngine::new(&mut catalog);
    let err = engine
        .execute_sql(explain(false, create_table_stmt("users", vec![("id", SqlType::Integer, None), ("name", SqlType::Varchar, Some(32))], vec![])))
        .unwrap_err();
    assert!(matches!(err, QueryEngineError::UnsupportedStatement));
}

#[test]
fn create_table_returns_command_tag_and_rejects_duplicates() {
    let mut catalog = Catalog::new();
    let mut engine = QueryEngine::new(&mut catalog);
    let QueryResult::Command { tag } = engine
        .execute_sql(create_table_stmt("users", vec![("id", SqlType::Integer, None), ("name", SqlType::Varchar, Some(32))], vec![]))
        .unwrap()
    else {
        panic!("CREATE TABLE should return a command result");
    };
    assert_eq!(tag, "CREATE TABLE");
    let err = engine
        .execute_sql(create_table_stmt("users", vec![("id", SqlType::Integer, None), ("name", SqlType::Varchar, Some(32))], vec![]))
        .unwrap_err();
    assert!(matches!(err, QueryEngineError::Catalog(CatalogError::DuplicateTable(name)) if name == "users"));
    assert_eq!(catalog.table_names(), vec!["users".to_string()]);
}

#[test]
fn primary_key_creates_pk_index() {
    let mut catalog = Catalog::new();
    {
        let mut engine = QueryEngine::new(&mut catalog);
        engine
            .execute_sql(create_table_stmt("users", vec![("tenant_id", SqlType::Integer, None), ("id", SqlType::Integer, None)], vec!["tenant_id", "id"]))
            .unwrap();
    }
    let indexes = catalog.get_table_indexes("users").unwrap();
    assert_eq!(indexes.len(), 1);
    assert_eq!(indexes[0].index.metadata.name, "users_pk");
    assert_eq!(indexes[0].index.metadata.key_attrs, vec![0, 1]);
    assert!(indexes[0].index.metadata.is_pk);
    assert_eq!(indexes[0].key_size, 8);
}

#[test]
fn binder_errors_are_reported_and_change_nothing() {
    let mut catalog = Catalog::new();
    let mut engine = setup_engine(&mut catalog);
    let err = engine.execute_sql(query(base("users"), vec![item(col("missing"))], None)).unwrap_err();
    assert!(matches!(err, QueryEngineError::Binder(BinderError::ColumnNotFound(c)) if c == "missing"));
}

#[test]
fn inserted_rows_are_read_back_updated_and_deleted() {
    let mut catalog = Catalog::new();
    let mut engine = setup_engine(&mut catalog);
    let count = rows(engine.execute_sql(insert_values("users", Some(vec!["id", "name"]), vec![vec![int_lit(1), text("alice")], vec![int_lit(2), text("bob")]])));
    assert_eq!(count, vec![int_row(vec![Value::Integer(2)])]);

    // The projection of every column is optimized away: the rows come
    // straight from the scan, with their record ids.
    let all = rows(engine.execute_sql_with_batch_size(query(base("users"), vec![item(col("id")), item(col("name"))], None), 1));
    assert_eq!(all[0].rid, Some(0));
    assert_eq!(all[1].rid, Some(1));
    assert_eq!(values(&all), vec![
        vec![Value::Integer(1), Value::Varchar("alice".to_string())],
        vec![Value::Integer(2), Value::Varchar("bob".to_string())],
    ]);

    let updated = rows(engine.execute_sql(update("users", vec![("name", text("bob"))], None)));
    assert_eq!(updated, vec![int_row(vec![Value::Integer(2)])]);
    let all = rows(engine.execute_sql(query(base("users"), vec![item(col("name")), item(col("id"))], None)));
    assert_eq!(values(&all), vec![
        vec![Value::Varchar("bob".to_string()), Value::Integer(1)],
        vec![Value::Varchar("bob".to_string()), Value::Integer(2)],
    ]);

    let deleted = rows(engine.execute_sql(delete("users", None)));
    assert_eq!(deleted, vec![int_row(vec![Value::Integer(2)])]);
    let all = rows(engine.execute_sql(query(base("users"), vec![item(col("id")), item(col("name"))], None)));
    assert!(all.is_empty());
}

fn values(rows: &[ExecutorRow]) -> Vec<Vec<Value>> {
    rows.iter().map(|r| r.values.clone()).collect()
}

#[test]
fn database_serializes_statements_and_lists_tables() {
    let mut database = Database::new();
    let first = database.execute_sql(create_table_stmt("users", vec![("id", SqlType::Integer, None), ("name", SqlType::Varchar, Some(32))], vec![]));
    let second = database.execute_sql(create_table_stmt("users", vec![("id", SqlType::Integer, None), ("name", SqlType::Varchar, Some(32))], vec![]));
    assert!(matches!(first, Ok(QueryResult::Command { .. })));
    assert!(matches!(
        second,
        Err(DatabaseError::Query(QueryEngineError::Catalog(CatalogError::DuplicateTable(name)))) if name == "users"
    ));
    assert_eq!(database.table_names().unwrap(), vec!["users".to_string()]);
}

#[test]
fn updates_and_deletes_move_index_entries() {
    let mut catalog = Catalog::new();
    {
        let mut engine = setup_engine(&mut catalog);
        rows(engine.execute_sql(insert_values("users", None, vec![vec![int_lit(1), text("alice")], vec![int_lit(2), text("bob")]])));
    }
    let key_schema = Schema::new(&[Column::new_static("id".to_string(), SqlType::Integer)]);
    catalog
        .create_index("users_id".to_string(), "users".to_string(), key_schema, vec![0], 4, false)
        .unwrap();
    let entries = |catalog: &Catalog| {
        let indexes = catalog.get_table_indexes("users").unwrap();
        indexes[0]
            .index
            .entries
            .iter()
            .map(|(key, rid)| (key.clone(), *rid))
            .collect::<Vec<_>>()
    };
    assert_eq!(entries(&catalog), vec![(vec![Value::Integer(1)], 0), (vec![Value::Integer(2)], 1)]);

    {
        let mut engine = QueryEngine::new(&mut catalog);
        rows(engine.execute_sql(update("users", vec![("id", bin(col("id"), BinaryOperator::Plus, int_lit(10)))], None)));
    }
    // Each row moved to a new tuple (record ids 2 and 3) under its new key.
    assert_eq!(entries(&catalog), vec![(vec![Value::Integer(11)], 2), (vec![Value::Integer(12)], 3)]);

    {
        let mut engine = QueryEngine::new(&mut catalog);
        rows(engine.execute_sql(delete("users", None)));
    }
    assert!(entries(&catalog).is_empty());
}
