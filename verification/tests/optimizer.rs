use oxtub::catalog::catalog::Catalog;
use oxtub::catalog::column::Column;
use oxtub::catalog::schema::Schema;
use oxtub::catalog::types::SqlType;
use oxtub::query::binder::transformer::Binder;
use oxtub::query::expression::{BinaryOperator, ColumnQualifier, Expression, ParsedColumnRef, UnaryOperator};
use oxtub::query::optimizer::Optimizer;
use oxtub::query::planner::plan::PlanNodeKind;
use oxtub::query::planner::transformer::Planner;
use oxtub::query::statement::{
    CreateColumn, CreateTableStatement, DeleteStatement, ExplainStatement, InsertSource,
    InsertStatement, SelectItem, SelectStatement, Statement, UpdateStatement,
};
use oxtub::query::table_ref::{JoinType, TableRef};
use oxtub::types::value::Value;

fn col(name: &str) -> Expression {
    Expression::Column(ParsedColumnRef { qualifier: None, column: name.to_string() })
}

fn qcol(table: &str, name: &str) -> Expression {
    Expression::Column(ParsedColumnRef {
        qualifier: Some(ColumnQualifier::Table { table: table.to_string() }),
        column: name.to_string(),
    })
}

fn int_lit(i: i32) -> Expression {
    Expression::Literal(Value::Integer(i))
}

fn text(s: &str) -> Expression {
    Expression::Literal(Value::Varchar(s.to_string()))
}

fn boolean(b: bool) -> Expression {
    Expression::Literal(Value::Boolean(b))
}

fn bin(left: Expression, op: BinaryOperator, right: Expression) -> Expression {
    Expression::BinaryOp { left: Box::new(left), op, right: Box::new(right) }
}

fn eq(left: Expression, right: Expression) -> Expression {
    bin(left, BinaryOperator::Eq, right)
}

fn unary(op: UnaryOperator, expr: Expression) -> Expression {
    Expression::UnaryOp { op, expr: Box::new(expr) }
}

fn base(name: &str) -> TableRef {
    TableRef::BaseTable { table_name: name.to_string(), alias: None }
}

fn aliased(name: &str, alias: &str) -> TableRef {
    TableRef::BaseTable { table_name: name.to_string(), alias: Some(alias.to_string()) }
}

fn join(left: TableRef, right: TableRef, condition: Expression) -> TableRef {
    TableRef::Join {
        left: Box::new(left),
        right: Box::new(right),
        join_type: JoinType::Inner,
        condition: Some(condition),
    }
}

fn item(e: Expression) -> SelectItem {
    SelectItem::Expression(e)
}

fn select_stmt(table: TableRef, projection: Vec<SelectItem>, where_clause: Option<Expression>) -> SelectStatement {
    SelectStatement { table, projection, where_clause }
}

fn query(table: TableRef, projection: Vec<SelectItem>, where_clause: Option<Expression>) -> Statement {
    Statement::Select(select_stmt(table, projection, where_clause))
}

fn names(columns: Option<Vec<&str>>) -> Option<Vec<String>> {
    columns.map(|cs| cs.into_iter().map(|c| c.to_string()).collect())
}

fn insert_values(table: &str, columns: Option<Vec<&str>>, rows: Vec<Vec<Expression>>) -> Statement {
    Statement::Insert(InsertStatement {
        table_name: table.to_string(),
        columns: names(columns),
        source: InsertSource::Values(rows),
    })
}

fn insert_select(table: &str, columns: Option<Vec<&str>>, source: SelectStatement) -> Statement {
    Statement::Insert(InsertStatement {
        table_name: table.to_string(),
        columns: names(columns),
        source: InsertSource::Select(source),
    })
}

fn update(table: &str, assignments: Vec<(&str, Expression)>, where_clause: Option<Expression>) -> Statement {
    Statement::Update(UpdateStatement {
        table_name: table.to_string(),
        assignments: assignments.into_iter().map(|(c, e)| (c.to_string(), e)).collect(),
        where_clause,
    })
}

fn delete(table: &str, where_clause: Option<Expression>) -> Statement {
    Statement::Delete(DeleteStatement { table_name: table.to_string(), where_clause })
}

fn create_table_stmt(table: &str, columns: Vec<(&str, SqlType, Option<usize>)>, primary_key: Vec<&str>) -> Statement {
    Statement::CreateTable(CreateTableStatement {
        table_name: table.to_string(),
        columns: columns
            .into_iter()
            .map(|(name, sql_type, size)| CreateColumn { name: name.to_string(), sql_type, size })
            .collect(),
        primary_key: primary_key.into_iter().map(|c| c.to_string()).collect(),
    })
}

fn explain(raw: bool, statement: Statement) -> Statement {
    Statement::Explain(ExplainStatement { raw, statement: Box::new(statement) })
}

fn create_users_table(catalog: &mut Catalog) {
    let schema = Schema::new(&[
        Column::new_static("id".to_string(), SqlType::Integer),
        Column::new_variable("name".to_string(), SqlType::Varchar, 32),
    ]);

    catalog.create_tbl("users".to_string(), schema).unwrap();
}

fn plan_sql(catalog: &Catalog, statement: Statement) -> oxtub::query::planner::plan::PlanNode {
    let binder = Binder::new(catalog);
    let bound = binder.bind_statement(statement).unwrap();
    let planner = Planner::new(catalog);

    planner.plan_statement(bound).unwrap()
}

#[test]
fn removes_superfluous_projection() {
    let mut catalog = Catalog::new();
    create_users_table(&mut catalog);

    let plan = plan_sql(&catalog, query(base("users"), vec![item(col("id")), item(col("name"))], None));

    assert!(matches!(plan.kind, PlanNodeKind::Projection(_)));

    let optimized = Optimizer::new(&catalog).optimize(&plan);

    assert!(matches!(optimized.kind, PlanNodeKind::SeqScan(_)));
    assert_eq!(optimized.output_schema(), plan.output_schema());
}

#[test]
fn pushes_filter_predicate_into_seq_scan() {
    let mut catalog = Catalog::new();
    create_users_table(&mut catalog);

    let plan = plan_sql(&catalog, query(base("users"), vec![item(col("id")), item(col("name"))], Some(eq(col("id"), int_lit(1)))));
    let optimized = Optimizer::new(&catalog).optimize(&plan);

    assert_eq!(
        format!("{optimized:#?}"),
        r#"PlanNode {
    output_schema: Schema {
        inlined_storage_size: 9,
        columns: [
            Column {
                name: "users.id",
                sql_type: Integer,
                value_offset: 1,
                size: Inline(
                    4,
                ),
            },
            Column {
                name: "users.name",
                sql_type: Varchar,
                value_offset: 5,
                size: Variable(
                    32,
                ),
            },
        ],
        uninlined_columns: [
            1,
        ],
    },
    kind: SeqScan(
        SeqScanPlan {
            table_name: "users",
            table_oid: 0,
            filter_predicate: Some(
                PlannedExpression {
                    return_type: ExpressionType {
                        sql_type: Boolean,
                        varchar_size: None,
                    },
                    kind: Comparison(
                        ComparisonExpression {
                            left: PlannedExpression {
                                return_type: ExpressionType {
                                    sql_type: Integer,
                                    varchar_size: None,
                                },
                                kind: ColumnValue(
                                    ColumnValueExpression {
                                        tuple_idx: 0,
                                        col_idx: 0,
                                    },
                                ),
                            },
                            comparison_type: Eq,
                            right: PlannedExpression {
                                return_type: ExpressionType {
                                    sql_type: Integer,
                                    varchar_size: None,
                                },
                                kind: ConstantValue(
                                    ConstantValueExpression {
                                        value: Integer(
                                            1,
                                        ),
                                    },
                                ),
                            },
                        },
                    ),
                },
            ),
        },
    ),
}"#
    );
}
