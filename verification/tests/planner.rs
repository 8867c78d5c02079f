use oxtub::catalog::catalog::Catalog;
use oxtub::catalog::column::Column;
use oxtub::catalog::schema::Schema;
use oxtub::catalog::types::SqlType;
use oxtub::query::binder::expression::ColumnRef;
use oxtub::query::binder::statement::BoundStatement;
use oxtub::query::binder::transformer::Binder;
use oxtub::query::expression::{BinaryOperator, ColumnQualifier, Expression, ParsedColumnRef, UnaryOperator};
use oxtub::query::planner::error::PlannerError;
use oxtub::query::planner::expression::{
    ArithmeticExpression, ArithmeticType, NullCheckExpression, NullCheckType, PlannedExpression,
    PlannedExpressionKind,
};
use oxtub::query::planner::plan::{PlanNode, PlanNodeKind, ValuesPlan};
use oxtub::query::planner::transformer::Planner;
use oxtub::query::statement::{
    CreateColumn, CreateTableStatement, DeleteStatement, ExplainStatement, InsertSource,
    InsertStatement, SelectItem, SelectStatement, Statement, UpdateStatement,
};
use oxtub::query::table_ref::{JoinType, TableRef};
use oxtub::types::value::Value;

fn col(name: &str) -> Expression {
    Expression::Column(ParsedColumnRef { qualifier: None, column: name.to_string() })
}

fn qcol(table: &str, name: &str) -> Expression {
    Expression::Column(ParsedColumnRef {
        qualifier: Some(ColumnQualifier::Table { table: table.to_string() }),
        column: name.to_string(),
    })
}

fn int_lit(i: i32) -> Expression {
    Expression::Literal(Value::Integer(i))
}

fn text(s: &str) -> Expression {
    Expression::Literal(Value::Varchar(s.to_string()))
}

fn boolean(b: bool) -> Expression {
    Expression::Literal(Value::Boolean(b))
}

fn bin(left: Expression, op: BinaryOperator, right: Expression) -> Expression {
    Expression::BinaryOp { left: Box::new(left), op, right: Box::new(right) }
}

fn eq(left: Expression, right: Expression) -> Expression {
    bin(left, BinaryOperator::Eq, right)
}

fn unary(op: UnaryOperator, expr: Expression) -> Expression {
    Expression::UnaryOp { op, expr: Box::new(expr) }
}

fn base(name: &str) -> TableRef {
    TableRef::BaseTable { table_name: name.to_string(), alias: None }
}

fn aliased(name: &str, alias: &str) -> TableRef {
    TableRef::BaseTable { table_name: name.to_string(), alias: Some(alias.to_string()) }
}

fn join(left: TableRef, right: TableRef, condition: Expression) -> TableRef {
    TableRef::Join {
        left: Box::new(left),
        right: Box::new(right),
        join_type: JoinType::Inner,
        condition: Some(condition),
    }
}

fn item(e: Expression) -> SelectItem {
    SelectItem::Expression(e)
}

fn select_stmt(table: TableRef, projection: Vec<SelectItem>, where_clause: Option<Expression>) -> SelectStatement {
    SelectStatement { table, projection, where_clause }
}

fn query(table: TableRef, projection: Vec<SelectItem>, where_clause: Option<Expression>) -> Statement {
    Statement::Select(select_stmt(table, projection, where_clause))
}

fn names(columns: Option<Vec<&str>>) -> Option<Vec<String>> {
    columns.map(|cs| cs.into_iter().map(|c| c.to_string()).collect())
}

fn insert_values(table: &str, columns: Option<Vec<&str>>, rows: Vec<Vec<Expression>>) -> Statement {
    Statement::Insert(InsertStatement {
        table_name: table.to_string(),
        columns: names(columns),
        source: InsertSource::Values(rows),
    })
}

fn insert_select(table: &str, columns: Option<Vec<&str>>, source: SelectStatement) -> Statement {
    Statement::Insert(InsertStatement {
        table_name: table.to_string(),
        columns: names(columns),
        source: InsertSource::Select(source),
    })
}

fn update(table: &str, assignments: Vec<(&str, Expression)>, where_clause: Option<Expression>) -> Statement {
    Statement::Update(UpdateStatement {
        table_name: table.to_string(),
        assignments: assignments.into_iter().map(|(c, e)| (c.to_string(), e)).collect(),
        where_clause,
    })
}

fn delete(table: &str, where_clause: Option<Expression>) -> Statement {
    Statement::Delete(DeleteStatement { table_name: table.to_string(), where_clause })
}

fn create_table_stmt(table: &str, columns: Vec<(&str, SqlType, Option<usize>)>, primary_key: Vec<&str>) -> Statement {
    Statement::CreateTable(CreateTableStatement {
        table_name: table.to_string(),
        columns: columns
            .into_iter()
            .map(|(name, sql_type, size)| CreateColumn { name: name.to_string(), sql_type, size })
            .collect(),
        primary_key: primary_key.into_iter().map(|c| c.to_string()).collect(),
    })
}

fn explain(raw: bool, statement: Statement) -> Statement {
    Statement::Explain(ExplainStatement { raw, statement: Box::new(statement) })
}

fn create_users_table(catalog: &mut Catalog) {
    let schema = Schema::new(&[
        Column::new_static("id".to_string(), SqlType::Integer),
        Column::new_variable("name".to_string(), SqlType::Varchar, 32),
    ]);

    catalog.create_tbl("users".to_string(), schema).unwrap();
}

fn plan_sql(catalog: &Catalog, statement: Statement) -> PlanNode {
    let binder = Binder::new(catalog);
    let planner = Planner::new(catalog);
    let bound = binder.bind_statement(statement).unwrap();

    planner.plan_statement(bound).unwrap()
}

fn plan_insert_sql(catalog: &Catalog, statement: Statement) -> Result<PlanNode, PlannerError> {
    let binder = Binder::new(catalog);
    let planner = Planner::new(catalog);
    let bound = binder.bind_statement(statement).unwrap();
    let BoundStatement::Insert(insert) = bound else {
        panic!("expected insert statement");
    };

    planner.plan_insert(insert)
}

fn plan_update_sql(catalog: &Catalog, statement: Statement) -> Result<PlanNode, PlannerError> {
    let binder = Binder::new(catalog);
    let planner = Planner::new(catalog);
    let bound = binder.bind_statement(statement).unwrap();
    let BoundStatement::Update(update) = bound else {
        panic!("expected update statement");
    };

    planner.plan_update(update)
}

fn plan_delete_sql(catalog: &Catalog, statement: Statement) -> Result<PlanNode, PlannerError> {
    let binder = Binder::new(catalog);
    let planner = Planner::new(catalog);
    let bound = binder.bind_statement(statement).unwrap();
    let BoundStatement::Delete(delete) = bound else {
        panic!("expected delete statement");
    };

    planner.plan_delete(delete)
}

fn projection_expression(plan: &PlanNode) -> &PlannedExpression {
    let PlanNodeKind::Projection(projection) = &plan.kind else {
        panic!("expected projection plan");
    };

    assert_eq!(projection.expressions.len(), 1);
    &projection.expressions[0]
}

fn plan_node_with_columns(columns: &[Column]) -> PlanNode {
    PlanNode {
        output_schema: Schema::new(columns),
        kind: PlanNodeKind::Values(ValuesPlan { rows: vec![] }),
    }
}

#[test]
fn plans_column_ref_from_right_child() {
    let catalog = Catalog::new();
    let planner = Planner::new(&catalog);
    let left =
        plan_node_with_columns(&[Column::new_static("left.id".to_string(), SqlType::Integer)]);
    let right = plan_node_with_columns(&[Column::new_variable(
        "right.name".to_string(),
        SqlType::Varchar,
        32,
    )]);

    let (_, col_expr, expr_type) = planner
        .plan_column_ref(
            ColumnRef::TableQualified {
                table: "right".to_string(),
                column: "name".to_string(),
            },
            &[&left, &right],
        )
        .unwrap();

    assert_eq!(col_expr.tuple_idx, 1);
    assert_eq!(col_expr.col_idx, 0);
    assert_eq!(expr_type.sql_type, SqlType::Varchar);
    assert_eq!(expr_type.varchar_size, Some(32));
}

#[test]
fn rejects_column_ref_matching_both_children() {
    let catalog = Catalog::new();
    let planner = Planner::new(&catalog);
    let left =
        plan_node_with_columns(&[Column::new_static("id".to_string(), SqlType::Integer)]);
    let right =
        plan_node_with_columns(&[Column::new_static("id".to_string(), SqlType::Integer)]);

    let err = planner
        .plan_column_ref(
            ColumnRef::Unqualified {
                column: "id".to_string(),
            },
            &[&left, &right],
        )
        .expect_err("expected ambiguous column error");

    assert!(matches!(err, PlannerError::AmbiguousColumn(col) if col == "id"));
}

#[test]
fn plans_select_column_and_literal_projection() {
    let mut catalog = Catalog::new();
    create_users_table(&mut catalog);

    let plan = plan_sql(&catalog, query(base("users"), vec![item(col("name")), item(int_lit(1)), item(col("id"))], None));

    assert_eq!(
        format!("{plan:#?}"),
        r#"PlanNode {
    output_schema: Schema {
        inlined_storage_size: 13,
        columns: [
            Column {
                name: "users.name",
                sql_type: Varchar,
                value_offset: 1,
                size: Variable(
                    32,
                ),
            },
            Column {
                name: "__unnamed#1",
                sql_type: Integer,
                value_offset: 5,
                size: Inline(
                    4,
                ),
            },
            Column {
                name: "users.id",
                sql_type: Integer,
                value_offset: 9,
                size: Inline(
                    4,
                ),
            },
        ],
        uninlined_columns: [
            0,
        ],
    },
    kind: Projection(
        ProjectionPlan {
            expressions: [
                PlannedExpression {
                    return_type: ExpressionType {
                        sql_type: Varchar,
                        varchar_size: Some(
                            32,
                        ),
                    },
                    kind: ColumnValue(
                        ColumnValueExpression {
                            tuple_idx: 0,
                            col_idx: 1,
                        },
                    ),
                },
                PlannedExpression {
                    return_type: ExpressionType {
                        sql_type: Integer,
                        varchar_size: None,
                    },
                    kind: ConstantValue(
                        ConstantValueExpression {
                            value: Integer(
                                1,
                            ),
                        },
                    ),
                },
                PlannedExpression {
                    return_type: ExpressionType {
                        sql_type: Integer,
                        varchar_size: None,
                    },
                    kind: ColumnValue(
                        ColumnValueExpression {
                            tuple_idx: 0,
                            col_idx: 0,
                        },
                    ),
                },
            ],
            child: PlanNode {
                output_schema: Schema {
                    inlined_storage_size: 9,
                    columns: [
                        Column {
                            name: "users.id",
                            sql_type: Integer,
                            value_offset: 1,
                            size: Inline(
                                4,
                            ),
                        },
                        Column {
                            name: "users.name",
                            sql_type: Varchar,
                            value_offset: 5,
                            size: Variable(
                                32,
                            ),
                        },
                    ],
                    uninlined_columns: [
                        1,
                    ],
                },
                kind: SeqScan(
                    SeqScanPlan {
                        table_name: "users",
                        table_oid: 0,
                        filter_predicate: None,
                    },
                ),
            },
        },
    ),
}"#
    );
}

#[test]
fn plans_select_arithmetic_projection() {
    let mut catalog = Catalog::new();
    create_users_table(&mut catalog);

    let plan = plan_sql(&catalog, query(base("users"), vec![item(bin(col("id"), BinaryOperator::Plus, int_lit(1)))], None));

    let expr = projection_expression(&plan);
    assert_eq!(expr.return_type.sql_type, SqlType::Integer);
    assert!(matches!(
        expr.kind,
        PlannedExpressionKind::Arithmetic(ArithmeticExpression {
            arithmetic_type: ArithmeticType::Plus,
            ..
        })
    ));
}

#[test]
fn plans_select_subtraction_projection() {
    let mut catalog = Catalog::new();
    create_users_table(&mut catalog);

    let plan = plan_sql(&catalog, query(base("users"), vec![item(bin(col("id"), BinaryOperator::Minus, int_lit(1)))], None));

    let expr = projection_expression(&plan);
    assert_eq!(expr.return_type.sql_type, SqlType::Integer);
    assert!(matches!(
        expr.kind,
        PlannedExpressionKind::Arithmetic(ArithmeticExpression {
            arithmetic_type: ArithmeticType::Minus,
            ..
        })
    ));
}

#[test]
fn plans_select_unary_projection() {
    let mut catalog = Catalog::new();
    create_users_table(&mut catalog);

    let plan = plan_sql(&catalog, query(base("users"), vec![item(unary(UnaryOperator::Neg, col("id")))], None));
    let expr = projection_expression(&plan);
    assert_eq!(expr.return_type.sql_type, SqlType::Integer);
    assert!(matches!(expr.kind, PlannedExpressionKind::Negate(_)));

    let plan = plan_sql(&catalog, query(base("users"), vec![item(unary(UnaryOperator::Not, eq(col("id"), int_lit(1))))], None));
    let expr = projection_expression(&plan);
    assert_eq!(expr.return_type.sql_type, SqlType::Boolean);
    assert!(matches!(expr.kind, PlannedExpressionKind::Not(_)));

    let plan = plan_sql(&catalog, query(base("users"), vec![item(unary(UnaryOperator::IsNotNull, col("name")))], None));
    let expr = projection_expression(&plan);
    assert_eq!(expr.return_type.sql_type, SqlType::Boolean);
    assert!(matches!(
        expr.kind,
        PlannedExpressionKind::NullCheck(NullCheckExpression {
            null_check_type: NullCheckType::IsNotNull,
            ..
        })
    ));
}

#[test]
fn plans_insert_values() {
    let mut catalog = Catalog::new();
    create_users_table(&mut catalog);

    let plan = plan_sql(
        &catalog,
        insert_values("users", Some(vec!["id", "name"]), vec![vec![int_lit(1), text("alice")], vec![int_lit(2), text("bob")]]));

    assert_eq!(
        format!("{plan:#?}"),
        r#"PlanNode {
    output_schema: Schema {
        inlined_storage_size: 5,
        columns: [
            Column {
                name: "__oxtub_internal.insert_rows",
                sql_type: Integer,
                value_offset: 1,
                size: Inline(
                    4,
                ),
            },
        ],
        uninlined_columns: [],
    },
    kind: Insert(
        InsertPlan {
            table_name: "users",
            table_oid: 0,
            table_schema: Schema {
                inlined_storage_size: 9,
                columns: [
                    Column {
                        name: "id",
                        sql_type: Integer,
                        value_offset: 1,
                        size: Inline(
                            4,
                        ),
                    },
                    Column {
                        name: "name",
                        sql_type: Varchar,
                        value_offset: 5,
                        size: Variable(
                            32,
                        ),
                    },
                ],
                uninlined_columns: [
                    1,
                ],
            },
            target_col_idxs: [
                0,
                1,
            ],
            child: PlanNode {
                output_schema: Schema {
                    inlined_storage_size: 9,
                    columns: [
                        Column {
                            name: "<unnamed>.0",
                            sql_type: Integer,
                            value_offset: 1,
                            size: Inline(
                                4,
                            ),
                        },
                        Column {
                            name: "<unnamed>.1",
                            sql_type: Varchar,
                            value_offset: 5,
                            size: Variable(
                                5,
                            ),
                        },
                    ],
                    uninlined_columns: [
                        1,
                    ],
                },
                kind: Values(
                    ValuesPlan {
                        rows: [
                            [
                                PlannedExpression {
                                    return_type: ExpressionType {
                                        sql_type: Integer,
                                        varchar_size: None,
                                    },
                                    kind: ConstantValue(
                                        ConstantValueExpression {
                                            value: Integer(
                                                1,
                                            ),
                                        },
                                    ),
                                },
                                PlannedExpression {
                                    return_type: ExpressionType {
                                        sql_type: Varchar,
                                        varchar_size: Some(
                                            5,
                                        ),
                                    },
                                    kind: ConstantValue(
                                        ConstantValueExpression {
                                            value: Varchar(
                                                "alice",
                                            ),
                                        },
                                    ),
                                },
                            ],
                            [
                                PlannedExpression {
                                    return_type: ExpressionType {
                                        sql_type: Integer,
                                        varchar_size: None,
                                    },
                                    kind: ConstantValue(
                                        ConstantValueExpression {
                                            value: Integer(
                                                2,
                                            ),
                                        },
                                    ),
                                },
                                PlannedExpression {
                                    return_type: ExpressionType {
                                        sql_type: Varchar,
                                        varchar_size: Some(
                                            3,
                                        ),
                                    },
                                    kind: ConstantValue(
                                        ConstantValueExpression {
                                            value: Varchar(
                                                "bob",
                                            ),
                                        },
                                    ),
                                },
                            ],
                        ],
                    },
                ),
            },
        },
    ),
}"#
    );
}

#[test]
fn plans_update_values_without_where_clause() {
    let mut catalog = Catalog::new();
    create_users_table(&mut catalog);

    let plan = plan_sql(&catalog, update("users", vec![("name", text("bob"))], None));

    assert_eq!(
        format!("{plan:#?}"),
        r#"PlanNode {
    output_schema: Schema {
        inlined_storage_size: 5,
        columns: [
            Column {
                name: "__oxtub_internal.update_rows",
                sql_type: Integer,
                value_offset: 1,
                size: Inline(
                    4,
                ),
            },
        ],
        uninlined_columns: [],
    },
    kind: Update(
        UpdatePlan {
            table_name: "users",
            table_oid: 0,
            table_schema: Schema {
                inlined_storage_size: 9,
                columns: [
                    Column {
                        name: "id",
                        sql_type: Integer,
                        value_offset: 1,
                        size: Inline(
                            4,
                        ),
                    },
                    Column {
                        name: "name",
                        sql_type: Varchar,
                        value_offset: 5,
                        size: Variable(
                            32,
                        ),
                    },
                ],
                uninlined_columns: [
                    1,
                ],
            },
            expressions: [
                PlannedExpression {
                    return_type: ExpressionType {
                        sql_type: Integer,
                        varchar_size: None,
                    },
                    kind: ColumnValue(
                        ColumnValueExpression {
                            tuple_idx: 0,
                            col_idx: 0,
                        },
                    ),
                },
                PlannedExpression {
                    return_type: ExpressionType {
                        sql_type: Varchar,
                        varchar_size: Some(
                            3,
                        ),
                    },
                    kind: ConstantValue(
                        ConstantValueExpression {
                            value: Varchar(
                                "bob",
                            ),
                        },
                    ),
                },
            ],
            child: PlanNode {
                output_schema: Schema {
                    inlined_storage_size: 9,
                    columns: [
                        Column {
                            name: "users.id",
                            sql_type: Integer,
                            value_offset: 1,
                            size: Inline(
                                4,
                            ),
                        },
                        Column {
                            name: "users.name",
                            sql_type: Varchar,
                            value_offset: 5,
                            size: Variable(
                                32,
                            ),
                        },
                    ],
                    uninlined_columns: [
                        1,
                    ],
                },
                kind: SeqScan(
                    SeqScanPlan {
                        table_name: "users",
                        table_oid: 0,
                        filter_predicate: None,
                    },
                ),
            },
        },
    ),
}"#
    );
}

#[test]
fn rejects_update_when_assignment_type_does_not_match_column() {
    let mut catalog = Catalog::new();
    create_users_table(&mut catalog);

    let err = plan_update_sql(&catalog, update("users", vec![("id", text("bad"))], None))
        .expect_err("expected update schema mismatch");

    assert!(matches!(err, PlannerError::UpdateSchemaMismatch));
}

#[test]
fn plans_delete_without_where_clause() {
    let mut catalog = Catalog::new();
    create_users_table(&mut catalog);

    let plan = plan_sql(&catalog, delete("users", None));

    assert_eq!(
        format!("{plan:#?}"),
        r#"PlanNode {
    output_schema: Schema {
        inlined_storage_size: 5,
        columns: [
            Column {
                name: "__oxtub_internal.delete_rows",
                sql_type: Integer,
                value_offset: 1,
                size: Inline(
                    4,
                ),
            },
        ],
        uninlined_columns: [],
    },
    kind: Delete(
        DeletePlan {
            table_oid: 0,
            child: PlanNode {
                output_schema: Schema {
                    inlined_storage_size: 9,
                    columns: [
                        Column {
                            name: "users.id",
                            sql_type: Integer,
                            value_offset: 1,
                            size: Inline(
                                4,
                            ),
                        },
                        Column {
                            name: "users.name",
                            sql_type: Varchar,
                            value_offset: 5,
                            size: Variable(
                                32,
                            ),
                        },
                    ],
                    uninlined_columns: [
                        1,
                    ],
                },
                kind: SeqScan(
                    SeqScanPlan {
                        table_name: "users",
                        table_oid: 0,
                        filter_predicate: None,
                    },
                ),
            },
        },
    ),
}"#
    );
}

#[test]
fn plans_delete_with_where_clause() {
    let mut catalog = Catalog::new();
    create_users_table(&mut catalog);

    let plan = plan_delete_sql(&catalog, delete("users", Some(eq(col("id"), int_lit(1))))).unwrap();

    let PlanNodeKind::Delete(delete) = &plan.kind else {
        panic!("expected delete plan");
    };
    let PlanNodeKind::Filter(filter) = &delete.child.kind else {
        panic!("expected filter below delete");
    };
    assert!(matches!(
        filter.predicate.kind,
        PlannedExpressionKind::Comparison(_)
    ));
}

#[test]
fn rejects_multi_row_insert_when_later_row_type_differs_from_first_row() {
    let mut catalog = Catalog::new();
    create_users_table(&mut catalog);

    let statement = oxtub::query::parser::parse_sql("insert into users (id) values (1), ('bad')").unwrap();
    let err = plan_insert_sql(&catalog, statement).expect_err("expected insert schema mismatch");

    assert!(matches!(err, PlannerError::InsertSchemaMismatch));
}

#[test]
fn rejects_insert_whose_later_row_has_too_long_a_string() {
    let mut catalog = Catalog::new();
    create_users_table(&mut catalog);

    let long = "x".repeat(40);
    let err = plan_insert_sql(
        &catalog,
        insert_values("users", Some(vec!["id", "name"]), vec![vec![int_lit(1), text("alice")], vec![int_lit(2), text(&long)]]),
    );
    assert!(matches!(err, Err(PlannerError::InsertSchemaMismatch)));
}
