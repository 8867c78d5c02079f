use oxtub::catalog::catalog::Catalog;
use oxtub::catalog::column::Column;
use oxtub::catalog::schema::Schema;
use oxtub::catalog::types::SqlType;
use oxtub::query::binder::error::BinderError;
use oxtub::query::binder::expression::{BoundExpression, ColumnRef};
use oxtub::query::binder::statement::BoundStatement;
use oxtub::query::binder::transformer::Binder;
use oxtub::query::expression::{BinaryOperator, ColumnQualifier, Expression, ParsedColumnRef, UnaryOperator};
use oxtub::query::statement::{
    CreateColumn, CreateTableStatement, DeleteStatement, ExplainStatement, InsertSource,
    InsertStatement, SelectItem, SelectStatement, Statement, UpdateStatement,
};
use oxtub::query::table_ref::{JoinType, TableRef};
use oxtub::types::value::Value;

fn col(name: &str) -> Expression {
    Expression::Column(ParsedColumnRef { qualifier: None, column: name.to_string() })
}

fn qcol(table: &str, name: &str) -> Expression {
    Expression::Column(ParsedColumnRef {
        qualifier: Some(ColumnQualifier::Table { table: table.to_string() }),
        column: name.to_string(),
    })
}

fn int_lit(i: i32) -> Expression {
    Expression::Literal(Value::Integer(i))
}

fn text(s: &str) -> Expression {
    Expression::Literal(Value::Varchar(s.to_string()))
}

fn boolean(b: bool) -> Expression {
    Expression::Literal(Value::Boolean(b))
}

fn bin(left: Expression, op: BinaryOperator, right: Expression) -> Expression {
    Expression::BinaryOp { left: Box::new(left), op, right: Box::new(right) }
}

fn eq(left: Expression, right: Expression) -> Expression {
    bin(left, BinaryOperator::Eq, right)
}

fn unary(op: UnaryOperator, expr: Expression) -> Expression {
    Expression::UnaryOp { op, expr: Box::new(expr) }
}

fn base(name: &str) -> TableRef {
    TableRef::BaseTable { table_name: name.to_string(), alias: None }
}

fn aliased(name: &str, alias: &str) -> TableRef {
    TableRef::BaseTable { table_name: name.to_string(), alias: Some(alias.to_string()) }
}

fn join(left: TableRef, right: TableRef, condition: Expression) -> TableRef {
    TableRef::Join {
        left: Box::new(left),
        right: Box::new(right),
        join_type: JoinType::Inner,
        condition: Some(condition),
    }
}

fn item(e: Expression) -> SelectItem {
    SelectItem::Expression(e)
}

fn select_stmt(table: TableRef, projection: Vec<SelectItem>, where_clause: Option<Expression>) -> SelectStatement {
    SelectStatement { table, projection, where_clause }
}

fn query(table: TableRef, projection: Vec<SelectItem>, where_clause: Option<Expression>) -> Statement {
    Statement::Select(select_stmt(table, projection, where_clause))
}

fn names(columns: Option<Vec<&str>>) -> Option<Vec<String>> {
    columns.map(|cs| cs.into_iter().map(|c| c.to_string()).collect())
}

fn insert_values(table: &str, columns: Option<Vec<&str>>, rows: Vec<Vec<Expression>>) -> Statement {
    Statement::Insert(InsertStatement {
        table_name: table.to_string(),
        columns: names(columns),
        source: InsertSource::Values(rows),
    })
}

fn insert_select(table: &str, columns: Option<Vec<&str>>, source: SelectStatement) -> Statement {
    Statement::Insert(InsertStatement {
        table_name: table.to_string(),
        columns: names(columns),
        source: InsertSource::Select(source),
    })
}

fn update(table: &str, assignments: Vec<(&str, Expression)>, where_clause: Option<Expression>) -> Statement {
    Statement::Update(UpdateStatement {
        table_name: table.to_string(),
        assignments: assignments.into_iter().map(|(c, e)| (c.to_string(), e)).collect(),
        where_clause,
    })
}

fn delete(table: &str, where_clause: Option<Expression>) -> Statement {
    Statement::Delete(DeleteStatement { table_name: table.to_string(), where_clause })
}

fn create_table_stmt(table: &str, columns: Vec<(&str, SqlType, Option<usize>)>, primary_key: Vec<&str>) -> Statement {
    Statement::CreateTable(CreateTableStatement {
        table_name: table.to_string(),
        columns: columns
            .into_iter()
            .map(|(name, sql_type, size)| CreateColumn { name: name.to_string(), sql_type, size })
            .collect(),
        primary_key: primary_key.into_iter().map(|c| c.to_string()).collect(),
    })
}

fn explain(raw: bool, statement: Statement) -> Statement {
    Statement::Explain(ExplainStatement { raw, statement: Box::new(statement) })
}

fn unwrap_binder_err(result: Result<BoundStatement, BinderError>) -> BinderError {
    match result {
        Ok(_) => panic!("expected binder error"),
        Err(err) => err,
    }
}

fn create_users_table(catalog: &mut Catalog) {
    create_table(catalog, "users");
}

fn create_table(catalog: &mut Catalog, name: &str) {
    let schema = Schema::new(&[
        Column::new_static("id".to_string(), SqlType::Integer),
        Column::new_variable("name".to_string(), SqlType::Varchar, 32),
    ]);

    catalog.create_tbl(name.to_string(), schema).unwrap();
}

#[test]
fn binds_create_table_columns() {
    let catalog = Catalog::new();
    let binder = Binder::new(&catalog);
    let statement = create_table_stmt("users", vec![("id", SqlType::Integer, None), ("name", SqlType::Varchar, Some(32))], vec![]);

    let bound = binder.bind_statement(statement).unwrap();
    let BoundStatement::CreateTable(create_table) = bound else {
        panic!("expected create table statement");
    };

    assert_eq!(
        format!("{create_table:#?}"),
        r#"BoundCreateTable {
    name: "users",
    columns: [
        Column {
            name: "id",
            sql_type: Integer,
            value_offset: 0,
            size: Inline(
                4,
            ),
        },
        Column {
            name: "name",
            sql_type: Varchar,
            value_offset: 0,
            size: Variable(
                32,
            ),
        },
    ],
    primary_key_col_idxs: [],
}"#
    );
}

#[test]
fn binds_create_table_primary_key() {
    let catalog = Catalog::new();
    let binder = Binder::new(&catalog);
    let statement = create_table_stmt("users", vec![("tenant_id", SqlType::Integer, None), ("id", SqlType::Integer, None)], vec!["tenant_id", "id"]);

    let bound = binder.bind_statement(statement).unwrap();
    let BoundStatement::CreateTable(create_table) = bound else {
        panic!("expected create table statement");
    };

    assert_eq!(
        format!("{create_table:#?}"),
        r#"BoundCreateTable {
    name: "users",
    columns: [
        Column {
            name: "tenant_id",
            sql_type: Integer,
            value_offset: 0,
            size: Inline(
                4,
            ),
        },
        Column {
            name: "id",
            sql_type: Integer,
            value_offset: 0,
            size: Inline(
                4,
            ),
        },
    ],
    primary_key_col_idxs: [
        0,
        1,
    ],
}"#
    );
}

#[test]
fn binds_insert_with_columns_and_literal_values() {
    let mut catalog = Catalog::new();
    create_users_table(&mut catalog);
    let binder = Binder::new(&catalog);
    let statement =
        insert_values("users", Some(vec!["id", "name"]), vec![vec![int_lit(1), text("alice")], vec![int_lit(2), text("bob")]]);

    let bound = binder.bind_statement(statement).unwrap();
    let BoundStatement::Insert(insert) = bound else {
        panic!("expected insert statement");
    };

    assert_eq!(
        format!("{insert:#?}"),
        r#"BoundInsert {
    table: BoundBaseTableRef {
        table_name: "users",
        table_oid: 0,
        alias: None,
        schema: Schema {
            inlined_storage_size: 9,
            columns: [
                Column {
                    name: "id",
                    sql_type: Integer,
                    value_offset: 1,
                    size: Inline(
                        4,
                    ),
                },
                Column {
                    name: "name",
                    sql_type: Varchar,
                    value_offset: 5,
                    size: Variable(
                        32,
                    ),
                },
            ],
            uninlined_columns: [
                1,
            ],
        },
    },
    columns: [
        TableQualified {
            table: "users",
            column: "id",
        },
        TableQualified {
            table: "users",
            column: "name",
        },
    ],
    source: Values(
        BoundExpressionListRef {
            identifier: "<unnamed>",
            values: [
                [
                    Literal(
                        Integer(
                            1,
                        ),
                    ),
                    Literal(
                        Varchar(
                            "alice",
                        ),
                    ),
                ],
                [
                    Literal(
                        Integer(
                            2,
                        ),
                    ),
                    Literal(
                        Varchar(
                            "bob",
                        ),
                    ),
                ],
            ],
        },
    ),
}"#
    );
}

#[test]
fn binds_select_wildcard() {
    let mut catalog = Catalog::new();
    create_users_table(&mut catalog);
    let binder = Binder::new(&catalog);
    let statement = query(base("users"), vec![SelectItem::Wildcard], None);

    let bound = binder.bind_statement(statement).unwrap();
    let BoundStatement::Select(select) = bound else {
        panic!("expected select statement");
    };

    assert_eq!(
        select.projection,
        vec![
            BoundExpression::Column(ColumnRef::TableQualified {
                table: "users".to_string(),
                column: "id".to_string(),
            }),
            BoundExpression::Column(ColumnRef::TableQualified {
                table: "users".to_string(),
                column: "name".to_string(),
            }),
        ]
    );
    assert_eq!(select.where_, None);
}

#[test]
fn binds_select_columns() {
    let mut catalog = Catalog::new();
    create_users_table(&mut catalog);
    let binder = Binder::new(&catalog);
    let statement = query(base("users"), vec![item(col("id")), item(col("name"))], None);

    let bound = binder.bind_statement(statement).unwrap();
    let BoundStatement::Select(select) = bound else {
        panic!("expected select statement");
    };

    assert_eq!(
        select.projection,
        vec![
            BoundExpression::Column(ColumnRef::TableQualified {
                table: "users".to_string(),
                column: "id".to_string(),
            }),
            BoundExpression::Column(ColumnRef::TableQualified {
                table: "users".to_string(),
                column: "name".to_string(),
            }),
        ]
    );
    assert_eq!(select.where_, None);
}

#[test]
fn binds_join_condition_against_both_tables() {
    let mut catalog = Catalog::new();
    create_users_table(&mut catalog);
    create_table(&mut catalog, "orders");
    let binder = Binder::new(&catalog);
    let statement =
        query(join(base("users"), base("orders"), eq(qcol("users", "id"), qcol("orders", "id"))), vec![item(qcol("users", "id"))], None);

    let bound = binder.bind_statement(statement).unwrap();
    let BoundStatement::Select(select) = bound else {
        panic!("expected select statement");
    };

    assert_eq!(
        format!("{:#?}", select.table),
        r#"Join(
    BoundJoin {
        left: BaseTable(
            BoundBaseTableRef {
                table_name: "users",
                table_oid: 0,
                alias: None,
                schema: Schema {
                    inlined_storage_size: 9,
                    columns: [
                        Column {
                            name: "id",
                            sql_type: Integer,
                            value_offset: 1,
                            size: Inline(
                                4,
                            ),
                        },
                        Column {
                            name: "name",
                            sql_type: Varchar,
                            value_offset: 5,
                            size: Variable(
                                32,
                            ),
                        },
                    ],
                    uninlined_columns: [
                        1,
                    ],
                },
            },
        ),
        right: BaseTable(
            BoundBaseTableRef {
                table_name: "orders",
                table_oid: 1,
                alias: None,
                schema: Schema {
                    inlined_storage_size: 9,
                    columns: [
                        Column {
                            name: "id",
                            sql_type: Integer,
                            value_offset: 1,
                            size: Inline(
                                4,
                            ),
                        },
                        Column {
                            name: "name",
                            sql_type: Varchar,
                            value_offset: 5,
                            size: Variable(
                                32,
                            ),
                        },
                    ],
                    uninlined_columns: [
                        1,
                    ],
                },
            },
        ),
        join_type: Inner,
        condition: Some(
            BinaryOp {
                left: Column(
                    TableQualified {
                        table: "users",
                        column: "id",
                    },
                ),
                op: Eq,
                right: Column(
                    TableQualified {
                        table: "orders",
                        column: "id",
                    },
                ),
            },
        ),
    },
)"#
    );
}

#[test]
fn binds_join_condition_against_aliased_tables() {
    let mut catalog = Catalog::new();
    create_users_table(&mut catalog);
    create_table(&mut catalog, "orders");
    let binder = Binder::new(&catalog);
    let statement = query(join(aliased("users", "u"), aliased("orders", "o"), eq(qcol("u", "id"), qcol("o", "id"))), vec![item(qcol("u", "id"))], None);

    let bound = binder.bind_statement(statement).unwrap();
    let BoundStatement::Select(select) = bound else {
        panic!("expected select statement");
    };

    assert_eq!(
        format!("{:#?}", select.table),
        r#"Join(
    BoundJoin {
        left: BaseTable(
            BoundBaseTableRef {
                table_name: "users",
                table_oid: 0,
                alias: Some(
                    "u",
                ),
                schema: Schema {
                    inlined_storage_size: 9,
                    columns: [
                        Column {
                            name: "id",
                            sql_type: Integer,
                            value_offset: 1,
                            size: Inline(
                                4,
                            ),
                        },
                        Column {
                            name: "name",
                            sql_type: Varchar,
                            value_offset: 5,
                            size: Variable(
                                32,
                            ),
                        },
                    ],
                    uninlined_columns: [
                        1,
                    ],
                },
            },
        ),
        right: BaseTable(
            BoundBaseTableRef {
                table_name: "orders",
                table_oid: 1,
                alias: Some(
                    "o",
                ),
                schema: Schema {
                    inlined_storage_size: 9,
                    columns: [
                        Column {
                            name: "id",
                            sql_type: Integer,
                            value_offset: 1,
                            size: Inline(
                                4,
                            ),
                        },
                        Column {
                            name: "name",
                            sql_type: Varchar,
                            value_offset: 5,
                            size: Variable(
                                32,
                            ),
                        },
                    ],
                    uninlined_columns: [
                        1,
                    ],
                },
            },
        ),
        join_type: Inner,
        condition: Some(
            BinaryOp {
                left: Column(
                    TableQualified {
                        table: "u",
                        column: "id",
                    },
                ),
                op: Eq,
                right: Column(
                    TableQualified {
                        table: "o",
                        column: "id",
                    },
                ),
            },
        ),
    },
)"#
    );
}

#[test]
fn binds_table_qualified_select_columns() {
    let mut catalog = Catalog::new();
    create_users_table(&mut catalog);
    let binder = Binder::new(&catalog);

    let statement = query(base("users"), vec![item(qcol("users", "id"))], None);
    let bound = binder.bind_statement(statement).unwrap();
    let BoundStatement::Select(select) = bound else {
        panic!("expected select statement");
    };

    assert_eq!(
        select.projection,
        vec![BoundExpression::Column(ColumnRef::TableQualified {
            table: "users".to_string(),
            column: "id".to_string(),
        })]
    );

    let statement = query(aliased("users", "u"), vec![item(qcol("u", "id"))], None);
    let bound = binder.bind_statement(statement).unwrap();
    let BoundStatement::Select(select) = bound else {
        panic!("expected select statement");
    };

    assert_eq!(
        select.projection,
        vec![BoundExpression::Column(ColumnRef::TableQualified {
            table: "u".to_string(),
            column: "id".to_string(),
        })]
    );
}

#[test]
fn rejects_table_qualified_columns_without_matching_table_scope() {
    let mut catalog = Catalog::new();
    create_users_table(&mut catalog);
    let binder = Binder::new(&catalog);

    let statement = query(base("users"), vec![item(qcol("orders", "id"))], None);
    let err = unwrap_binder_err(binder.bind_statement(statement));
    assert!(matches!(err, BinderError::MissingFromClauseEntry(table) if table == "orders"));

    let statement = query(aliased("users", "u"), vec![item(qcol("users", "id"))], None);
    let err = unwrap_binder_err(binder.bind_statement(statement));
    assert!(matches!(err, BinderError::MissingFromClauseEntry(table) if table == "users"));
}

#[test]
fn binds_select_where_clause() {
    let mut catalog = Catalog::new();
    create_users_table(&mut catalog);
    let binder = Binder::new(&catalog);
    let statement = query(base("users"), vec![item(col("id"))], Some(eq(col("id"), int_lit(1))));

    let bound = binder.bind_statement(statement).unwrap();
    let BoundStatement::Select(select) = bound else {
        panic!("expected select statement");
    };

    assert_eq!(
        select.projection,
        vec![BoundExpression::Column(ColumnRef::TableQualified {
            table: "users".to_string(),
            column: "id".to_string(),
        })]
    );
    assert_eq!(
        format!("{:#?}", select.where_),
        r#"Some(
    BinaryOp {
        left: Column(
            TableQualified {
                table: "users",
                column: "id",
            },
        ),
        op: Eq,
        right: Literal(
            Integer(
                1,
            ),
        ),
    },
)"#
    );
}

#[test]
fn binds_update_with_assignments_and_where_clause() {
    let mut catalog = Catalog::new();
    create_users_table(&mut catalog);
    let binder = Binder::new(&catalog);
    let statement = update("users", vec![("name", text("bob"))], Some(eq(col("id"), int_lit(1))));

    let bound = binder.bind_statement(statement).unwrap();
    let BoundStatement::Update(update) = bound else {
        panic!("expected update statement");
    };

    assert_eq!(
        format!("{update:#?}"),
        r#"BoundUpdate {
    table: BoundBaseTableRef {
        table_name: "users",
        table_oid: 0,
        alias: None,
        schema: Schema {
            inlined_storage_size: 9,
            columns: [
                Column {
                    name: "id",
                    sql_type: Integer,
                    value_offset: 1,
                    size: Inline(
                        4,
                    ),
                },
                Column {
                    name: "name",
                    sql_type: Varchar,
                    value_offset: 5,
                    size: Variable(
                        32,
                    ),
                },
            ],
            uninlined_columns: [
                1,
            ],
        },
    },
    filter_expr: Some(
        BinaryOp {
            left: Column(
                TableQualified {
                    table: "users",
                    column: "id",
                },
            ),
            op: Eq,
            right: Literal(
                Integer(
                    1,
                ),
            ),
        },
    ),
    target_exprs: [
        (
            TableQualified {
                table: "users",
                column: "name",
            },
            Literal(
                Varchar(
                    "bob",
                ),
            ),
        ),
    ],
}"#
    );
}

#[test]
fn binds_update_without_where_clause() {
    let mut catalog = Catalog::new();
    create_users_table(&mut catalog);
    let binder = Binder::new(&catalog);
    let statement = update("users", vec![("name", text("bob"))], None);

    let bound = binder.bind_statement(statement).unwrap();
    let BoundStatement::Update(update) = bound else {
        panic!("expected update statement");
    };

    assert!(update.filter_expr.is_none());
    assert_eq!(update.target_exprs.len(), 1);
}

#[test]
fn binds_delete_with_where_clause() {
    let mut catalog = Catalog::new();
    create_users_table(&mut catalog);
    let binder = Binder::new(&catalog);
    let statement = delete("users", Some(eq(col("id"), int_lit(1))));

    let bound = binder.bind_statement(statement).unwrap();
    let BoundStatement::Delete(delete) = bound else {
        panic!("expected delete statement");
    };

    assert_eq!(
        format!("{delete:#?}"),
        r#"BoundDelete {
    table: BoundBaseTableRef {
        table_name: "users",
        table_oid: 0,
        alias: None,
        schema: Schema {
            inlined_storage_size: 9,
            columns: [
                Column {
                    name: "id",
                    sql_type: Integer,
                    value_offset: 1,
                    size: Inline(
                        4,
                    ),
                },
                Column {
                    name: "name",
                    sql_type: Varchar,
                    value_offset: 5,
                    size: Variable(
                        32,
                    ),
                },
            ],
            uninlined_columns: [
                1,
            ],
        },
    },
    filter_expr: Some(
        BinaryOp {
            left: Column(
                TableQualified {
                    table: "users",
                    column: "id",
                },
            ),
            op: Eq,
            right: Literal(
                Integer(
                    1,
                ),
            ),
        },
    ),
}"#
    );
}

#[test]
fn binds_delete_without_where_clause() {
    let mut catalog = Catalog::new();
    create_users_table(&mut catalog);
    let binder = Binder::new(&catalog);
    let statement = delete("users", None);

    let bound = binder.bind_statement(statement).unwrap();
    let BoundStatement::Delete(delete) = bound else {
        panic!("expected delete statement");
    };

    assert!(delete.filter_expr.is_none());
}

#[test]
fn rejects_select_unknown_column() {
    let mut catalog = Catalog::new();
    create_users_table(&mut catalog);
    let binder = Binder::new(&catalog);
    let statement = query(base("users"), vec![item(col("missing"))], None);
    let err = unwrap_binder_err(binder.bind_statement(statement));

    assert!(matches!(err, BinderError::ColumnNotFound(column) if column == "missing"));
}

#[test]
fn rejects_update_unknown_target_column() {
    let mut catalog = Catalog::new();
    create_users_table(&mut catalog);
    let binder = Binder::new(&catalog);
    let statement = update("users", vec![("missing", int_lit(1))], None);
    let err = unwrap_binder_err(binder.bind_statement(statement));

    assert!(matches!(err, BinderError::ColumnNotFound(column) if column == "missing"));
}

#[test]
fn rejects_update_unknown_filter_column() {
    let mut catalog = Catalog::new();
    create_users_table(&mut catalog);
    let binder = Binder::new(&catalog);
    let statement = update("users", vec![("name", text("bob"))], Some(eq(col("missing"), int_lit(1))));
    let err = unwrap_binder_err(binder.bind_statement(statement));

    assert!(matches!(err, BinderError::ColumnNotFound(column) if column == "missing"));
}

#[test]
fn rejects_delete_unknown_filter_column() {
    let mut catalog = Catalog::new();
    create_users_table(&mut catalog);
    let binder = Binder::new(&catalog);
    let statement = delete("users", Some(eq(col("missing"), int_lit(1))));
    let err = unwrap_binder_err(binder.bind_statement(statement));

    assert!(matches!(err, BinderError::ColumnNotFound(column) if column == "missing"));
}

#[test]
fn rejects_select_unknown_table() {
    let catalog = Catalog::new();
    let binder = Binder::new(&catalog);
    let statement = query(base("users"), vec![item(col("id"))], None);
    let err = unwrap_binder_err(binder.bind_statement(statement));

    assert!(matches!(err, BinderError::Catalog(_)));
}

#[test]
fn rejects_empty_select_projection() {
    let mut catalog = Catalog::new();
    create_users_table(&mut catalog);
    let binder = Binder::new(&catalog);
    let statement = Statement::Select(SelectStatement {
        table: TableRef::BaseTable {
            table_name: "users".to_string(),
            alias: None,
        },
        projection: vec![],
        where_clause: None,
    });
    let err = unwrap_binder_err(binder.bind_statement(statement));

    assert!(matches!(err, BinderError::EmptySelectProjection));
}

#[test]
fn rejects_duplicate_create_table_columns() {
    let catalog = Catalog::new();
    let binder = Binder::new(&catalog);
    let statement = create_table_stmt("users", vec![("id", SqlType::Integer, None), ("id", SqlType::Integer, None)], vec![]);
    let err = unwrap_binder_err(binder.bind_statement(statement));

    assert!(matches!(err, BinderError::DuplicateColumn(column) if column == "id"));
}

#[test]
fn rejects_insert_unknown_column() {
    let mut catalog = Catalog::new();
    create_users_table(&mut catalog);
    let binder = Binder::new(&catalog);
    let statement = insert_values("users", Some(vec!["missing"]), vec![vec![int_lit(1)]]);
    let err = unwrap_binder_err(binder.bind_statement(statement));

    assert!(matches!(err, BinderError::ColumnNotFound(column) if column == "missing"));
}

#[test]
fn rejects_insert_values_that_do_not_match_columns() {
    let mut catalog = Catalog::new();
    create_users_table(&mut catalog);
    let binder = Binder::new(&catalog);
    let statement = insert_values("users", Some(vec!["id", "name"]), vec![vec![int_lit(1)]]);
    let err = unwrap_binder_err(binder.bind_statement(statement));

    assert!(matches!(err, BinderError::InsertValuesDoesntMatchColumns));
}

#[test]
fn rejects_column_refs_in_insert_values_without_scope() {
    let mut catalog = Catalog::new();
    create_users_table(&mut catalog);
    let binder = Binder::new(&catalog);
    let statement = insert_values("users", Some(vec!["id"]), vec![vec![col("id")]]);
    let err = unwrap_binder_err(binder.bind_statement(statement));

    assert!(
        matches!(err, BinderError::UnsupportedExpression(message) if message.contains("without table scope"))
    );
}

#[test]
fn binds_insert_without_columns_using_schema_order() {
    let mut catalog = Catalog::new();
    create_users_table(&mut catalog);
    let binder = Binder::new(&catalog);
    let statement = insert_values("users", None, vec![vec![int_lit(1), text("alice")]]);

    let bound = binder.bind_statement(statement).unwrap();
    let BoundStatement::Insert(insert) = bound else {
        panic!("expected insert statement");
    };

    assert_eq!(
        format!("{insert:#?}"),
        r#"BoundInsert {
    table: BoundBaseTableRef {
        table_name: "users",
        table_oid: 0,
        alias: None,
        schema: Schema {
            inlined_storage_size: 9,
            columns: [
                Column {
                    name: "id",
                    sql_type: Integer,
                    value_offset: 1,
                    size: Inline(
                        4,
                    ),
                },
                Column {
                    name: "name",
                    sql_type: Varchar,
                    value_offset: 5,
                    size: Variable(
                        32,
                    ),
                },
            ],
            uninlined_columns: [
                1,
            ],
        },
    },
    columns: [
        Unqualified {
            column: "id",
        },
        Unqualified {
            column: "name",
        },
    ],
    source: Values(
        BoundExpressionListRef {
            identifier: "<unnamed>",
            values: [
                [
                    Literal(
                        Integer(
                            1,
                        ),
                    ),
                    Literal(
                        Varchar(
                            "alice",
                        ),
                    ),
                ],
            ],
        },
    ),
}"#
    );
}

#[test]
fn rejects_duplicate_insert_columns() {
    let mut catalog = Catalog::new();
    create_users_table(&mut catalog);
    let binder = Binder::new(&catalog);
    let statement = insert_values("users", Some(vec!["id", "id"]), vec![vec![int_lit(1), int_lit(2)]]);
    let err = unwrap_binder_err(binder.bind_statement(statement));

    assert!(matches!(err, BinderError::DuplicateInsertColumns));
}

#[test]
fn rejects_insert_without_columns_when_values_exceed_schema_columns() {
    let mut catalog = Catalog::new();
    create_users_table(&mut catalog);
    let binder = Binder::new(&catalog);
    let statement = insert_values("users", None, vec![vec![int_lit(1), text("alice"), boolean(true)]]);
    let err = unwrap_binder_err(binder.bind_statement(statement));

    assert!(matches!(err, BinderError::InsertValuesDoesntMatchColumns));
}

#[test]
fn rejects_insert_without_columns_when_values_are_missing_schema_columns() {
    let mut catalog = Catalog::new();
    create_users_table(&mut catalog);
    let binder = Binder::new(&catalog);
    let statement = insert_values("users", None, vec![vec![int_lit(1)]]);
    let err = unwrap_binder_err(binder.bind_statement(statement));

    assert!(matches!(err, BinderError::InsertValuesDoesntMatchColumns));
}

#[test]
fn rejects_missing_primary_key_column() {
    let catalog = Catalog::new();
    let binder = Binder::new(&catalog);
    let statement =
        create_table_stmt("users", vec![("id", SqlType::Integer, None)], vec!["missing"]);
    let err = unwrap_binder_err(binder.bind_statement(statement));

    assert!(
        matches!(err, BinderError::PrimaryKeyColumnNotFound(column) if column == "missing")
    );
}

#[test]
fn rejects_duplicate_primary_key_column() {
    let catalog = Catalog::new();
    let binder = Binder::new(&catalog);
    let statement = create_table_stmt("users", vec![("id", SqlType::Integer, None)], vec!["id", "id"]);
    let err = unwrap_binder_err(binder.bind_statement(statement));

    assert!(matches!(err, BinderError::DuplicatePrimaryKeyColumn(column) if column == "id"));
}
