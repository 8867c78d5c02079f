use oxtub::catalog::catalog::Catalog;
use oxtub::catalog::column::Column;
use oxtub::catalog::schema::Schema;
use oxtub::catalog::types::SqlType;
use oxtub::query::binder::transformer::Binder;
use oxtub::query::executor::engine::{ExecutionEngine, ExecutionResult, ExecutorRow};
use oxtub::query::expression::{BinaryOperator, ColumnQualifier, Expression, ParsedColumnRef, UnaryOperator};
use oxtub::query::planner::transformer::Planner;
use oxtub::query::statement::{
    CreateColumn, CreateTableStatement, DeleteStatement, ExplainStatement, InsertSource,
    InsertStatement, SelectItem, SelectStatement, Statement, UpdateStatement,
};
use oxtub::query::table_ref::{JoinType, TableRef};
use oxtub::types::value::Value;

fn col(name: &str) -> Expression {
    Expression::Column(ParsedColumnRef { qualifier: None, column: name.to_string() })
}

fn qcol(table: &str, name: &str) -> Expression {
    Expression::Column(ParsedColumnRef {
        qualifier: Some(ColumnQualifier::Table { table: table.to_string() }),
        column: name.to_string(),
    })
}

fn int_lit(i: i32) -> Expression {
    Expression::Literal(Value::Integer(i))
}

fn text(s: &str) -> Expression {
    Expression::Literal(Value::Varchar(s.to_string()))
}

fn boolean(b: bool) -> Expression {
    Expression::Literal(Value::Boolean(b))
}

fn bin(left: Expression, op: BinaryOperator, right: Expression) -> Expression {
    Expression::BinaryOp { left: Box::new(left), op, right: Box::new(right) }
}

fn eq(left: Expression, right: Expression) -> Expression {
    bin(left, BinaryOperator::Eq, right)
}

fn unary(op: UnaryOperator, expr: Expression) -> Expression {
    Expression::UnaryOp { op, expr: Box::new(expr) }
}

fn base(name: &str) -> TableRef {
    TableRef::BaseTable { table_name: name.to_string(), alias: None }
}

fn aliased(name: &str, alias: &str) -> TableRef {
    TableRef::BaseTable { table_name: name.to_string(), alias: Some(alias.to_string()) }
}

fn join(left: TableRef, right: TableRef, condition: Expression) -> TableRef {
    TableRef::Join {
        left: Box::new(left),
        right: Box::new(right),
        join_type: JoinType::Inner,
        condition: Some(condition),
    }
}

fn item(e: Expression) -> SelectItem {
    SelectItem::Expression(e)
}

fn select_stmt(table: TableRef, projection: Vec<SelectItem>, where_clause: Option<Expression>) -> SelectStatement {
    SelectStatement { table, projection, where_clause }
}

fn query(table: TableRef, projection: Vec<SelectItem>, where_clause: Option<Expression>) -> Statement {
    Statement::Select(select_stmt(table, projection, where_clause))
}

fn names(columns: Option<Vec<&str>>) -> Option<Vec<String>> {
    columns.map(|cs| cs.into_iter().map(|c| c.to_string()).collect())
}

fn insert_values(table: &str, columns: Option<Vec<&str>>, rows: Vec<Vec<Expression>>) -> Statement {
    Statement::Insert(InsertStatement {
        table_name: table.to_string(),
        columns: names(columns),
        source: InsertSource::Values(rows),
    })
}

fn insert_select(table: &str, columns: Option<Vec<&str>>, source: SelectStatement) -> Statement {
    Statement::Insert(InsertStatement {
        table_name: table.to_string(),
        columns: names(columns),
        source: InsertSource::Select(source),
    })
}

fn update(table: &str, assignments: Vec<(&str, Expression)>, where_clause: Option<Expression>) -> Statement {
    Statement::Update(UpdateStatement {
        table_name: table.to_string(),
        assignments: assignments.into_iter().map(|(c, e)| (c.to_string(), e)).collect(),
        where_clause,
    })
}

fn delete(table: &str, where_clause: Option<Expression>) -> Statement {
    Statement::Delete(DeleteStatement { table_name: table.to_string(), where_clause })
}

fn create_table_stmt(table: &str, columns: Vec<(&str, SqlType, Option<usize>)>, primary_key: Vec<&str>) -> Statement {
    Statement::CreateTable(CreateTableStatement {
        table_name: table.to_string(),
        columns: columns
            .into_iter()
            .map(|(name, sql_type, size)| CreateColumn { name: name.to_string(), sql_type, size })
            .collect(),
        primary_key: primary_key.into_iter().map(|c| c.to_string()).collect(),
    })
}

fn explain(raw: bool, statement: Statement) -> Statement {
    Statement::Explain(ExplainStatement { raw, statement: Box::new(statement) })
}

fn create_users_table(catalog: &mut Catalog) {
    create_table(catalog, "users");
}

fn create_table(catalog: &mut Catalog, name: &str) {
    let schema = Schema::new(&[
        Column::new_static("id".to_string(), SqlType::Integer),
        Column::new_variable("name".to_string(), SqlType::Varchar, 32),
    ]);

    catalog.create_tbl(name.to_string(), schema).unwrap();
}

fn execute_sql(catalog: &mut Catalog, statement: Statement) -> ExecutionResult {
    let plan = {
        let binder = Binder::new(catalog);
        let bound = binder.bind_statement(statement).unwrap();
        let planner = Planner::new(catalog);
        planner.plan_statement(bound).unwrap()
    };
    let mut engine = ExecutionEngine::new(catalog);

    engine.execute(plan, 2).unwrap()
}

#[test]
fn inserts_values_and_returns_count() {
    let mut catalog = Catalog::new();
    create_users_table(&mut catalog);

    let result = execute_sql(&mut catalog,
        insert_values("users", Some(vec!["id", "name"]), vec![vec![int_lit(1), text("alice")], vec![int_lit(2), text("bob")]]));

    assert_eq!(result.rows.len(), 1);
    assert_eq!(result.rows[0].values, vec![Value::Integer(2)]);

    let result = execute_sql(&mut catalog, query(base("users"), vec![item(col("id")), item(col("name"))], None));
    assert_eq!(
        result.rows,
        vec![
            ExecutorRow {
                rid: None,
                values: vec![Value::Integer(1), Value::Varchar("alice".to_string())],
            },
            ExecutorRow {
                rid: None,
                values: vec![Value::Integer(2), Value::Varchar("bob".to_string())],
            },
        ]
    );
}

#[test]
fn inserts_values_using_target_column_order() {
    let mut catalog = Catalog::new();
    create_users_table(&mut catalog);

    execute_sql(&mut catalog, insert_values("users", Some(vec!["name", "id"]), vec![vec![text("alice"), int_lit(1)]]));

    let result = execute_sql(&mut catalog, query(base("users"), vec![item(col("id")), item(col("name"))], None));
    assert_eq!(
        result.rows,
        vec![ExecutorRow {
            rid: None,
            values: vec![Value::Integer(1), Value::Varchar("alice".to_string())],
        }]
    );
}

#[test]
fn inserts_rows_from_select() {
    let mut catalog = Catalog::new();
    create_table(&mut catalog, "t1");
    create_table(&mut catalog, "t2");

    execute_sql(&mut catalog,
        insert_values("t1", Some(vec!["id", "name"]), vec![vec![int_lit(1), text("alice")], vec![int_lit(2), text("bob")]]));
    let result = execute_sql(&mut catalog, insert_select("t2", None, select_stmt(base("t1"), vec![SelectItem::Wildcard], None)));

    assert_eq!(result.rows.len(), 1);
    assert_eq!(result.rows[0].values, vec![Value::Integer(2)]);

    let result = execute_sql(&mut catalog, query(base("t2"), vec![item(col("id")), item(col("name"))], None));
    assert_eq!(
        result.rows,
        vec![
            ExecutorRow {
                rid: None,
                values: vec![Value::Integer(1), Value::Varchar("alice".to_string())],
            },
            ExecutorRow {
                rid: None,
                values: vec![Value::Integer(2), Value::Varchar("bob".to_string())],
            },
        ]
    );
}
