use oxtub::catalog::types::SqlType;
use oxtub::query::expression::{BinaryOperator, ColumnQualifier, Expression, ParsedColumnRef, UnaryOperator};
use oxtub::query::parser::{
    convert_statements, parse_i32, QueryError, RawAssignment, RawBinaryOp, RawColumnDef,
    RawColumnOption, RawCreateTable, RawDataType, RawDelete, RawExpr, RawFromTable, RawIndexColumn,
    RawInsert, RawJoin, RawJoinConstraint, RawJoinOperator, RawObjectName, RawSelect,
    RawSelectItem, RawSetExpr, RawStatement, RawTableAlias, RawTableConstraint, RawTableFactor,
    RawTableWithJoins, RawUnaryOp, RawUpdate, RawValue,
};
use oxtub::query::statement::{
    CreateColumn, CreateTableStatement, DeleteStatement, InsertSource, InsertStatement, SelectItem,
    SelectStatement, Statement, UpdateStatement,
};
use oxtub::query::table_ref::{JoinType, TableRef};
use oxtub::types::value::Value;

fn name(text: &str) -> RawObjectName {
    RawObjectName {
        text: text.to_string(),
        parts: text.split('.').map(|p| Some(p.to_string())).collect(),
    }
}

fn factor(table: &str, alias: Option<&str>) -> RawTableFactor {
    RawTableFactor::Table {
        name: name(table),
        alias: alias.map(|a| RawTableAlias {
            name: a.to_string(),
            columns: false,
            at: false,
        }),
        args: false,
        with_hints: false,
        version: false,
        with_ordinality: false,
        partitions: false,
        json_path: false,
        sample: false,
        index_hints: false,
    }
}

fn from(table: &str) -> RawTableWithJoins {
    RawTableWithJoins {
        relation: factor(table, None),
        joins: vec![],
    }
}

fn ident(s: &str) -> RawExpr {
    RawExpr::Identifier(s.to_string())
}

fn compound(parts: &[&str]) -> RawExpr {
    RawExpr::CompoundIdentifier(parts.iter().map(|p| p.to_string()).collect())
}

fn number(s: &str) -> RawExpr {
    RawExpr::Value(RawValue::Number(s.chars().collect(), false))
}

fn text(s: &str) -> RawExpr {
    RawExpr::Value(RawValue::SingleQuotedString(s.to_string()))
}

fn binary(left: RawExpr, op: RawBinaryOp, right: RawExpr) -> RawExpr {
    RawExpr::BinaryOp {
        left: Box::new(left),
        op,
        right: Box::new(right),
    }
}

fn select(from: Vec<RawTableWithJoins>, projection: Vec<RawSelectItem>, selection: Option<RawExpr>) -> RawSelect {
    RawSelect {
        from,
        projection,
        selection,
    }
}

fn query(s: RawSelect) -> RawStatement {
    RawStatement::Query(RawSetExpr::Select(s))
}

fn convert(raw: RawStatement) -> Result<Statement, QueryError> {
    convert_statements(vec![raw])
}

fn column(c: &str) -> Expression {
    Expression::Column(ParsedColumnRef {
        qualifier: None,
        column: c.to_string(),
    })
}

fn qualified(t: &str, c: &str) -> Expression {
    Expression::Column(ParsedColumnRef {
        qualifier: Some(ColumnQualifier::Table { table: t.to_string() }),
        column: c.to_string(),
    })
}

fn int_lit(i: i32) -> Expression {
    Expression::Literal(Value::Integer(i))
}

fn base(t: &str, alias: Option<&str>) -> TableRef {
    TableRef::BaseTable {
        table_name: t.to_string(),
        alias: alias.map(|a| a.to_string()),
    }
}

fn join_on(right: &str, operator: fn(RawJoinConstraint) -> RawJoinOperator) -> RawJoin {
    RawJoin {
        relation: factor(right, None),
        global: false,
        operator: operator(RawJoinConstraint::On(binary(
            compound(&["users", "id"]),
            RawBinaryOp::Eq,
            compound(&["orders", "user_id"]),
        ))),
    }
}

fn users_orders(join_type: JoinType, condition: bool) -> Statement {
    Statement::Select(SelectStatement {
        table: TableRef::Join {
            left: Box::new(base("users", None)),
            right: Box::new(base("orders", None)),
            join_type,
            condition: if condition {
                Some(Expression::BinaryOp {
                    left: Box::new(qualified("users", "id")),
                    op: BinaryOperator::Eq,
                    right: Box::new(qualified("orders", "user_id")),
                })
            } else {
                None
            },
        },
        projection: vec![SelectItem::Wildcard],
        where_clause: None,
    })
}

#[test]
fn converts_select_wildcard() {
    let statement = convert(query(select(vec![from("users")], vec![RawSelectItem::Wildcard], None))).unwrap();
    assert_eq!(
        format!("{statement:?}"),
        r#"Select(SelectStatement { table: BaseTable { table_name: "users", alias: None }, projection: [Wildcard], where_clause: None })"#
    );
}

#[test]
fn converts_select_projection_and_where() {
    let statement = convert(query(select(
        vec![from("users")],
        vec![RawSelectItem::UnnamedExpr(ident("id")), RawSelectItem::UnnamedExpr(ident("name"))],
        Some(binary(ident("id"), RawBinaryOp::Eq, number("1"))),
    )))
    .unwrap();
    assert_eq!(
        statement,
        Statement::Select(SelectStatement {
            table: base("users", None),
            projection: vec![SelectItem::Expression(column("id")), SelectItem::Expression(column("name"))],
            where_clause: Some(Expression::BinaryOp {
                left: Box::new(column("id")),
                op: BinaryOperator::Eq,
                right: Box::new(int_lit(1)),
            }),
        })
    );
}

#[test]
fn converts_each_kind_of_join() {
    let with = |join: RawJoin| {
        convert(query(select(
            vec![RawTableWithJoins {
                relation: factor("users", None),
                joins: vec![join],
            }],
            vec![RawSelectItem::Wildcard],
            None,
        )))
        .unwrap()
    };
    assert_eq!(with(join_on("orders", RawJoinOperator::Join)), users_orders(JoinType::Inner, true));
    assert_eq!(with(join_on("orders", RawJoinOperator::Inner)), users_orders(JoinType::Inner, true));
    assert_eq!(with(join_on("orders", RawJoinOperator::Left)), users_orders(JoinType::Left, true));
    let cross = RawJoin {
        relation: factor("orders", None),
        global: false,
        operator: RawJoinOperator::CrossJoin(RawJoinConstraint::Absent),
    };
    assert_eq!(with(cross), users_orders(JoinType::Cross, false));
}

#[test]
fn converts_join_aliases() {
    let statement = convert(query(select(
        vec![RawTableWithJoins {
            relation: factor("users", Some("u")),
            joins: vec![RawJoin {
                relation: factor("orders", Some("o")),
                global: false,
                operator: RawJoinOperator::Join(RawJoinConstraint::On(binary(
                    compound(&["u", "id"]),
                    RawBinaryOp::Eq,
                    compound(&["o", "user_id"]),
                ))),
            }],
        }],
        vec![RawSelectItem::Wildcard],
        None,
    )))
    .unwrap();
    assert_eq!(
        format!("{statement:?}"),
        r#"Select(SelectStatement { table: Join { left: BaseTable { table_name: "users", alias: Some("u") }, right: BaseTable { table_name: "orders", alias: Some("o") }, join_type: Inner, condition: Some(BinaryOp { left: Column(ParsedColumnRef { qualifier: Some(Table { table: "u" }), column: "id" }), op: Eq, right: Column(ParsedColumnRef { qualifier: Some(Table { table: "o" }), column: "user_id" }) }) }, projection: [Wildcard], where_clause: None })"#
    );
}

#[test]
fn refuses_unsupported_joins_and_from_lists() {
    let with = |operator: RawJoinOperator| {
        convert(query(select(
            vec![RawTableWithJoins {
                relation: factor("users", None),
                joins: vec![RawJoin {
                    relation: factor("orders", None),
                    global: false,
                    operator,
                }],
            }],
            vec![RawSelectItem::Wildcard],
            None,
        )))
    };
    assert_eq!(
        with(RawJoinOperator::Other),
        Err(QueryError::UnsupportedQuery("only JOIN, INNER JOIN, LEFT JOIN, and CROSS JOIN are supported"))
    );
    assert_eq!(
        with(RawJoinOperator::Join(RawJoinConstraint::Other)),
        Err(QueryError::UnsupportedQuery("JOIN and LEFT JOIN require an ON condition"))
    );
    let two = convert(query(select(vec![from("users"), from("orders")], vec![RawSelectItem::Wildcard], None)));
    assert_eq!(two, Err(QueryError::UnsupportedQuery("only one FROM table group is supported")));
}

#[test]
fn converts_unary_and_arithmetic_operators() {
    let statement = convert(query(select(
        vec![from("users")],
        vec![
            RawSelectItem::UnnamedExpr(RawExpr::UnaryOp { op: RawUnaryOp::Not, expr: Box::new(ident("active")) }),
            RawSelectItem::UnnamedExpr(RawExpr::IsNull(Box::new(ident("name")))),
            RawSelectItem::UnnamedExpr(RawExpr::IsNotNull(Box::new(ident("name")))),
            RawSelectItem::UnnamedExpr(binary(
                RawExpr::UnaryOp { op: RawUnaryOp::Minus, expr: Box::new(ident("score")) },
                RawBinaryOp::Plus,
                number("1"),
            )),
        ],
        Some(RawExpr::UnaryOp {
            op: RawUnaryOp::Not,
            expr: Box::new(RawExpr::Nested(Box::new(RawExpr::IsNull(Box::new(ident("name")))))),
        }),
    )))
    .unwrap();
    assert_eq!(
        format!("{statement:?}"),
        r#"Select(SelectStatement { table: BaseTable { table_name: "users", alias: None }, projection: [Expression(UnaryOp { op: Not, expr: Column(ParsedColumnRef { qualifier: None, column: "active" }) }), Expression(UnaryOp { op: IsNull, expr: Column(ParsedColumnRef { qualifier: None, column: "name" }) }), Expression(UnaryOp { op: IsNotNull, expr: Column(ParsedColumnRef { qualifier: None, column: "name" }) }), Expression(BinaryOp { left: UnaryOp { op: Neg, expr: Column(ParsedColumnRef { qualifier: None, column: "score" }) }, op: Plus, right: Literal(Integer(1)) })], where_clause: Some(UnaryOp { op: Not, expr: UnaryOp { op: IsNull, expr: Column(ParsedColumnRef { qualifier: None, column: "name" }) } }) })"#
    );
}

#[test]
fn refuses_unsupported_expressions() {
    let with = |e: RawExpr| convert(query(select(vec![from("users")], vec![RawSelectItem::UnnamedExpr(e)], None)));
    assert_eq!(with(RawExpr::Other), Err(QueryError::UnsupportedExpression));
    assert_eq!(with(number("2147483648")), Err(QueryError::UnsupportedExpression));
    assert_eq!(with(number("1.5")), Err(QueryError::UnsupportedExpression));
    assert_eq!(with(compound(&["a", "b", "c", "d"])), Err(QueryError::UnsupportedExpression));
    assert_eq!(with(binary(ident("a"), RawBinaryOp::Other, ident("b"))), Err(QueryError::UnsupportedExpression));
    assert_eq!(
        convert(query(select(vec![from("users")], vec![RawSelectItem::Other], None))),
        Err(QueryError::UnsupportedQuery("only wildcard and unnamed select expressions are supported"))
    );
}

#[test]
fn converts_schema_qualified_columns() {
    let statement = convert(query(select(
        vec![from("users")],
        vec![RawSelectItem::UnnamedExpr(compound(&["public", "users", "id"]))],
        None,
    )))
    .unwrap();
    assert_eq!(
        statement,
        Statement::Select(SelectStatement {
            table: base("users", None),
            projection: vec![SelectItem::Expression(Expression::Column(ParsedColumnRef {
                qualifier: Some(ColumnQualifier::SchemaTable {
                    schema: "public".to_string(),
                    table: "users".to_string(),
                }),
                column: "id".to_string(),
            }))],
            where_clause: None,
        })
    );
}

#[test]
fn converts_insert_values() {
    let raw = RawStatement::Insert(RawInsert {
        source: Some(RawSetExpr::Values(vec![vec![number("1"), text("alice")], vec![number("2"), text("bob")]])),
        table: Some(name("users")),
        columns: vec![name("id"), name("name")],
    });
    assert_eq!(
        convert(raw).unwrap(),
        Statement::Insert(InsertStatement {
            table_name: "users".to_string(),
            columns: Some(vec!["id".to_string(), "name".to_string()]),
            source: InsertSource::Values(vec![
                vec![int_lit(1), Expression::Literal(Value::Varchar("alice".to_string()))],
                vec![int_lit(2), Expression::Literal(Value::Varchar("bob".to_string()))],
            ]),
        })
    );

    let no_columns = RawStatement::Insert(RawInsert {
        source: Some(RawSetExpr::Values(vec![vec![number("1")]])),
        table: Some(name("users")),
        columns: vec![],
    });
    assert!(matches!(convert(no_columns), Ok(Statement::Insert(InsertStatement { columns: None, .. }))));
}

#[test]
fn converts_insert_select_and_refuses_other_sources() {
    let raw = RawStatement::Insert(RawInsert {
        source: Some(RawSetExpr::Select(select(vec![from("t1")], vec![RawSelectItem::Wildcard], None))),
        table: Some(name("t2")),
        columns: vec![],
    });
    assert_eq!(
        format!("{:?}", convert(raw).unwrap()),
        r#"Insert(InsertStatement { table_name: "t2", columns: None, source: Select(SelectStatement { table: BaseTable { table_name: "t1", alias: None }, projection: [Wildcard], where_clause: None }) })"#
    );

    let no_source = RawStatement::Insert(RawInsert { source: None, table: Some(name("t")), columns: vec![] });
    assert_eq!(convert(no_source), Err(QueryError::UnsupportedStatement("INSERT must use a source")));
    let other = RawStatement::Insert(RawInsert { source: Some(RawSetExpr::Other), table: Some(name("t")), columns: vec![] });
    assert_eq!(convert(other), Err(QueryError::UnsupportedStatement("only VALUES and SELECT inserts are supported")));
    let no_table = RawStatement::Insert(RawInsert {
        source: Some(RawSetExpr::Values(vec![vec![number("1")]])),
        table: None,
        columns: vec![],
    });
    assert_eq!(convert(no_table), Err(QueryError::UnsupportedStatement("INSERT target must be a table name")));
}

fn update(assignments: Vec<RawAssignment>, limit: bool) -> RawStatement {
    RawStatement::Update(RawUpdate {
        optimizer_hints: false,
        from: false,
        returning: false,
        output: false,
        or: false,
        order_by: false,
        limit,
        table: from("users"),
        assignments,
        selection: Some(binary(ident("id"), RawBinaryOp::Eq, number("1"))),
    })
}

#[test]
fn converts_update_statement() {
    let raw = update(
        vec![
            RawAssignment::Column(name("name"), text("bob")),
            RawAssignment::Column(name("active"), RawExpr::Value(RawValue::Boolean(true))),
        ],
        false,
    );
    assert_eq!(
        convert(raw).unwrap(),
        Statement::Update(UpdateStatement {
            table_name: "users".to_string(),
            assignments: vec![
                ("name".to_string(), Expression::Literal(Value::Varchar("bob".to_string()))),
                ("active".to_string(), Expression::Literal(Value::Boolean(true))),
            ],
            where_clause: Some(Expression::BinaryOp {
                left: Box::new(column("id")),
                op: BinaryOperator::Eq,
                right: Box::new(int_lit(1)),
            }),
        })
    );
}

#[test]
fn refuses_qualified_and_tuple_update_targets() {
    let qualified = update(vec![RawAssignment::Column(name("users.name"), text("bob"))], false);
    assert_eq!(convert(qualified), Err(QueryError::UnsupportedStatement("qualified UPDATE targets are not supported")));
    let tuple = update(vec![RawAssignment::Other], false);
    assert_eq!(convert(tuple), Err(QueryError::UnsupportedStatement("UPDATE tuple assignments are not supported")));
    let limited = update(vec![RawAssignment::Column(name("name"), text("bob"))], true);
    assert_eq!(convert(limited), Err(QueryError::UnsupportedStatement("only simple UPDATE statements are supported")));
}

fn delete(from_table: RawFromTable) -> RawStatement {
    RawStatement::Delete(RawDelete {
        optimizer_hints: false,
        tables: false,
        using: false,
        returning: false,
        output: false,
        order_by: false,
        limit: false,
        from: from_table,
        selection: Some(binary(ident("id"), RawBinaryOp::Eq, number("1"))),
    })
}

#[test]
fn converts_delete_statement() {
    assert_eq!(
        convert(delete(RawFromTable::WithFromKeyword(vec![from("users")]))).unwrap(),
        Statement::Delete(DeleteStatement {
            table_name: "users".to_string(),
            where_clause: Some(Expression::BinaryOp {
                left: Box::new(column("id")),
                op: BinaryOperator::Eq,
                right: Box::new(int_lit(1)),
            }),
        })
    );
    assert_eq!(
        convert(delete(RawFromTable::WithoutKeyword)),
        Err(QueryError::UnsupportedStatement("DELETE must use a FROM clause"))
    );
    assert_eq!(
        convert(delete(RawFromTable::WithFromKeyword(vec![from("a"), from("b")]))),
        Err(QueryError::UnsupportedStatement("DELETE must target exactly one table"))
    );
    let joined = RawTableWithJoins {
        relation: factor("users", None),
        joins: vec![join_on("orders", RawJoinOperator::Join)],
    };
    assert_eq!(
        convert(delete(RawFromTable::WithFromKeyword(vec![joined]))),
        Err(QueryError::UnsupportedStatement("joins are not supported yet"))
    );
}

fn column_def(n: &str, data_type: RawDataType, options: Vec<RawColumnOption>) -> RawColumnDef {
    RawColumnDef {
        name: n.to_string(),
        data_type,
        options,
    }
}

fn create(columns: Vec<RawColumnDef>, constraints: Vec<RawTableConstraint>) -> RawStatement {
    RawStatement::CreateTable(RawCreateTable {
        name: name("users"),
        columns,
        constraints,
    })
}

fn users_table(primary_key: &[&str]) -> Statement {
    Statement::CreateTable(CreateTableStatement {
        table_name: "users".to_string(),
        columns: vec![
            CreateColumn {
                name: "id".to_string(),
                sql_type: SqlType::Integer,
                size: None,
            },
            CreateColumn {
                name: "name".to_string(),
                sql_type: SqlType::Varchar,
                size: Some(32),
            },
        ],
        primary_key: primary_key.iter().map(|s| s.to_string()).collect(),
    })
}

#[test]
fn converts_create_table_and_its_primary_key() {
    let plain = create(
        vec![
            column_def("id", RawDataType::Integer, vec![]),
            column_def("name", RawDataType::Varchar(Some(32)), vec![]),
        ],
        vec![],
    );
    assert_eq!(convert(plain).unwrap(), users_table(&[]));

    let column_pk = create(
        vec![
            column_def("id", RawDataType::Integer, vec![RawColumnOption::PrimaryKey]),
            column_def("name", RawDataType::Varchar(Some(32)), vec![]),
        ],
        vec![],
    );
    assert_eq!(convert(column_pk).unwrap(), users_table(&["id"]));

    let table_pk = create(
        vec![
            column_def("id", RawDataType::Int, vec![]),
            column_def("name", RawDataType::Varchar(Some(32)), vec![]),
        ],
        vec![RawTableConstraint::PrimaryKey(vec![
            RawIndexColumn::Identifier("id".to_string()),
            RawIndexColumn::Identifier("name".to_string()),
        ])],
    );
    assert_eq!(convert(table_pk).unwrap(), users_table(&["id", "name"]));
}

#[test]
fn refuses_unsupported_create_table_parts() {
    let not_null = create(vec![column_def("id", RawDataType::Integer, vec![RawColumnOption::Other])], vec![]);
    assert_eq!(
        convert(not_null),
        Err(QueryError::UnsupportedStatement("only PRIMARY KEY column constraints are supported in CREATE TABLE"))
    );
    let unique = create(vec![column_def("id", RawDataType::Integer, vec![])], vec![RawTableConstraint::Other]);
    assert_eq!(
        convert(unique),
        Err(QueryError::UnsupportedStatement("only PRIMARY KEY constraints are supported in CREATE TABLE"))
    );
    let twice = create(
        vec![column_def("id", RawDataType::Integer, vec![RawColumnOption::PrimaryKey])],
        vec![RawTableConstraint::PrimaryKey(vec![RawIndexColumn::Identifier("id".to_string())])],
    );
    assert_eq!(
        convert(twice),
        Err(QueryError::UnsupportedStatement("multiple PRIMARY KEY declarations are not supported"))
    );
    let bare = create(vec![column_def("name", RawDataType::Varchar(None), vec![])], vec![]);
    assert_eq!(convert(bare), Err(QueryError::VarcharMissingSize));
    for t in ["FLOAT", "REAL"] {
        let float = create(vec![column_def("score", RawDataType::Other(t.to_string()), vec![])], vec![]);
        assert_eq!(convert(float), Err(QueryError::UnsupportedDataType(t.to_string())));
    }
    let double = create(vec![column_def("score", RawDataType::Double, vec![])], vec![]);
    assert!(matches!(
        convert(double),
        Ok(Statement::CreateTable(CreateTableStatement { columns, .. })) if columns[0].sql_type == SqlType::Decimal
    ));
}

#[test]
fn expects_exactly_one_statement() {
    let one = || query(select(vec![from("users")], vec![RawSelectItem::Wildcard], None));
    assert_eq!(convert_statements(vec![one(), one()]), Err(QueryError::ExpectedSingleStatement));
    assert_eq!(convert_statements(vec![]), Err(QueryError::ExpectedSingleStatement));
    assert_eq!(
        convert_statements(vec![RawStatement::Other]),
        Err(QueryError::UnsupportedStatement("only SELECT, INSERT, UPDATE, DELETE, and CREATE TABLE are supported"))
    );
    assert_eq!(
        convert_statements(vec![RawStatement::Query(RawSetExpr::Other)]),
        Err(QueryError::UnsupportedQuery("only SELECT queries are supported"))
    );
}

#[test]
fn reads_decimal_i32_as_rust_does() {
    let p = |s: &str| parse_i32(&s.chars().collect());
    assert_eq!(p("42"), Some(42));
    assert_eq!(p("+12"), Some(12));
    assert_eq!(p("-7"), Some(-7));
    assert_eq!(p("007"), Some(7));
    assert_eq!(p("2147483647"), Some(i32::MAX));
    assert_eq!(p("-2147483648"), Some(i32::MIN));
    assert_eq!(p("2147483648"), None);
    assert_eq!(p("99999999999999999999"), None);
    assert_eq!(p(""), None);
    assert_eq!(p("+"), None);
    assert_eq!(p("1.5"), None);
    assert_eq!(p("1e3"), None);
    for s in ["0", "-0", "123456", "-98765", "+2147483647"] {
        assert_eq!(p(s), s.parse::<i32>().ok());
    }
}
