use oxtub::catalog::types::SqlType;
use oxtub::query::binder::statements::statement_is_valid;
use oxtub::query::parser::{parse_sql, QueryError};
use oxtub::query::statement::{CreateColumn, CreateTableStatement, Statement};

/// The text between the first line break and the end, less the indentation
/// that all its non-empty lines share.
fn dedent(text: &str) -> String {
    let text = text.strip_prefix('\n').unwrap_or(text);
    let indent = text
        .lines()
        .filter(|l| !l.trim().is_empty())
        .map(|l| l.len() - l.trim_start().len())
        .min()
        .unwrap_or(0);
    text.lines()
        .map(|l| if l.len() >= indent { &l[indent..] } else { l.trim_start() })
        .collect::<Vec<_>>()
        .join("\n")
}

#[test]
fn parses_select_wildcard() {
    let statement = parse_sql("select * from users").unwrap();

    assert_eq!(format!("{statement:#?}"), dedent(r#"
        Select(
            SelectStatement {
                table: BaseTable {
                    table_name: "users",
                    alias: None,
                },
                projection: [
                    Wildcard,
                ],
                where_clause: None,
            },
        )"#));
}

#[test]
fn parses_select_projection() {
    let statement = parse_sql("select id, name from users").unwrap();

    assert_eq!(format!("{statement:#?}"), dedent(r#"
        Select(
            SelectStatement {
                table: BaseTable {
                    table_name: "users",
                    alias: None,
                },
                projection: [
                    Expression(
                        Column(
                            ParsedColumnRef {
                                qualifier: None,
                                column: "id",
                            },
                        ),
                    ),
                    Expression(
                        Column(
                            ParsedColumnRef {
                                qualifier: None,
                                column: "name",
                            },
                        ),
                    ),
                ],
                where_clause: None,
            },
        )"#));
}

#[test]
fn parses_select_joins() {
    let statement =
        parse_sql("select * from users join orders on users.id = orders.user_id").unwrap();

    assert_eq!(format!("{statement:#?}"), dedent(r#"
        Select(
            SelectStatement {
                table: Join {
                    left: BaseTable {
                        table_name: "users",
                        alias: None,
                    },
                    right: BaseTable {
                        table_name: "orders",
                        alias: None,
                    },
                    join_type: Inner,
                    condition: Some(
                        BinaryOp {
                            left: Column(
                                ParsedColumnRef {
                                    qualifier: Some(
                                        Table {
                                            table: "users",
                                        },
                                    ),
                                    column: "id",
                                },
                            ),
                            op: Eq,
                            right: Column(
                                ParsedColumnRef {
                                    qualifier: Some(
                                        Table {
                                            table: "orders",
                                        },
                                    ),
                                    column: "user_id",
                                },
                            ),
                        },
                    ),
                },
                projection: [
                    Wildcard,
                ],
                where_clause: None,
            },
        )"#));

    let statement =
        parse_sql("select * from users inner join orders on users.id = orders.user_id")
            .unwrap();

    assert_eq!(format!("{statement:?}"), dedent(r#"Select(SelectStatement { table: Join { left: BaseTable { table_name: "users", alias: None }, right: BaseTable { table_name: "orders", alias: None }, join_type: Inner, condition: Some(BinaryOp { left: Column(ParsedColumnRef { qualifier: Some(Table { table: "users" }), column: "id" }), op: Eq, right: Column(ParsedColumnRef { qualifier: Some(Table { table: "orders" }), column: "user_id" }) }) }, projection: [Wildcard], where_clause: None })"#));

    let statement =
        parse_sql("select * from users left join orders on users.id = orders.user_id").unwrap();

    assert_eq!(format!("{statement:?}"), dedent(r#"Select(SelectStatement { table: Join { left: BaseTable { table_name: "users", alias: None }, right: BaseTable { table_name: "orders", alias: None }, join_type: Left, condition: Some(BinaryOp { left: Column(ParsedColumnRef { qualifier: Some(Table { table: "users" }), column: "id" }), op: Eq, right: Column(ParsedColumnRef { qualifier: Some(Table { table: "orders" }), column: "user_id" }) }) }, projection: [Wildcard], where_clause: None })"#));

    let statement = parse_sql("select * from users cross join orders").unwrap();

    assert_eq!(format!("{statement:?}"), dedent(r#"Select(SelectStatement { table: Join { left: BaseTable { table_name: "users", alias: None }, right: BaseTable { table_name: "orders", alias: None }, join_type: Cross, condition: None }, projection: [Wildcard], where_clause: None })"#));
}

#[test]
fn parses_select_join_aliases() {
    let statement =
        parse_sql("select * from users u join orders o on u.id = o.user_id").unwrap();

    assert_eq!(format!("{statement:?}"), dedent(r#"Select(SelectStatement { table: Join { left: BaseTable { table_name: "users", alias: Some("u") }, right: BaseTable { table_name: "orders", alias: Some("o") }, join_type: Inner, condition: Some(BinaryOp { left: Column(ParsedColumnRef { qualifier: Some(Table { table: "u" }), column: "id" }), op: Eq, right: Column(ParsedColumnRef { qualifier: Some(Table { table: "o" }), column: "user_id" }) }) }, projection: [Wildcard], where_clause: None })"#));
}

#[test]
fn rejects_unsupported_select_joins() {
    for sql in [
        "select * from users right join orders on users.id = orders.user_id",
        "select * from users full join orders on users.id = orders.user_id",
        "select * from users natural join orders",
        "select * from users join orders using (id)",
        "select * from users, orders",
    ] {
        let err = parse_sql(sql).unwrap_err();
        assert!(matches!(err, QueryError::UnsupportedQuery(_)));
    }
}

#[test]
fn parses_select_projection_unary_operators() {
    let statement =
        parse_sql("select not active, -score, name is null, name is not null from users")
            .unwrap();

    assert_eq!(format!("{statement:?}"), dedent(r#"Select(SelectStatement { table: BaseTable { table_name: "users", alias: None }, projection: [Expression(UnaryOp { op: Not, expr: Column(ParsedColumnRef { qualifier: None, column: "active" }) }), Expression(UnaryOp { op: Neg, expr: Column(ParsedColumnRef { qualifier: None, column: "score" }) }), Expression(UnaryOp { op: IsNull, expr: Column(ParsedColumnRef { qualifier: None, column: "name" }) }), Expression(UnaryOp { op: IsNotNull, expr: Column(ParsedColumnRef { qualifier: None, column: "name" }) })], where_clause: None })"#));
}

#[test]
fn parses_select_projection_arithmetic_operators() {
    let statement = parse_sql("select score + 1, score - 1, -score + 1 from users").unwrap();

    assert_eq!(format!("{statement:?}"), dedent(r#"Select(SelectStatement { table: BaseTable { table_name: "users", alias: None }, projection: [Expression(BinaryOp { left: Column(ParsedColumnRef { qualifier: None, column: "score" }), op: Plus, right: Literal(Integer(1)) }), Expression(BinaryOp { left: Column(ParsedColumnRef { qualifier: None, column: "score" }), op: Minus, right: Literal(Integer(1)) }), Expression(BinaryOp { left: UnaryOp { op: Neg, expr: Column(ParsedColumnRef { qualifier: None, column: "score" }) }, op: Plus, right: Literal(Integer(1)) })], where_clause: None })"#));
}

#[test]
fn parses_select_where_equality() {
    let statement = parse_sql("select id from users where id = 1").unwrap();

    assert_eq!(format!("{statement:#?}"), dedent(r#"
        Select(
            SelectStatement {
                table: BaseTable {
                    table_name: "users",
                    alias: None,
                },
                projection: [
                    Expression(
                        Column(
                            ParsedColumnRef {
                                qualifier: None,
                                column: "id",
                            },
                        ),
                    ),
                ],
                where_clause: Some(
                    BinaryOp {
                        left: Column(
                            ParsedColumnRef {
                                qualifier: None,
                                column: "id",
                            },
                        ),
                        op: Eq,
                        right: Literal(
                            Integer(
                                1,
                            ),
                        ),
                    },
                ),
            },
        )"#));
}

#[test]
fn parses_select_where_unary_operators() {
    let statement = parse_sql("select id from users where not active").unwrap();

    assert_eq!(format!("{statement:?}"), dedent(r#"Select(SelectStatement { table: BaseTable { table_name: "users", alias: None }, projection: [Expression(Column(ParsedColumnRef { qualifier: None, column: "id" }))], where_clause: Some(UnaryOp { op: Not, expr: Column(ParsedColumnRef { qualifier: None, column: "active" }) }) })"#));

    let statement = parse_sql("select id from users where -score = 1").unwrap();

    assert_eq!(format!("{statement:?}"), dedent(r#"Select(SelectStatement { table: BaseTable { table_name: "users", alias: None }, projection: [Expression(Column(ParsedColumnRef { qualifier: None, column: "id" }))], where_clause: Some(BinaryOp { left: UnaryOp { op: Neg, expr: Column(ParsedColumnRef { qualifier: None, column: "score" }) }, op: Eq, right: Literal(Integer(1)) }) })"#));

    let statement = parse_sql("select id from users where name is null").unwrap();

    assert_eq!(format!("{statement:?}"), dedent(r#"Select(SelectStatement { table: BaseTable { table_name: "users", alias: None }, projection: [Expression(Column(ParsedColumnRef { qualifier: None, column: "id" }))], where_clause: Some(UnaryOp { op: IsNull, expr: Column(ParsedColumnRef { qualifier: None, column: "name" }) }) })"#));

    let statement = parse_sql("select id from users where name is not null").unwrap();

    assert_eq!(format!("{statement:?}"), dedent(r#"Select(SelectStatement { table: BaseTable { table_name: "users", alias: None }, projection: [Expression(Column(ParsedColumnRef { qualifier: None, column: "id" }))], where_clause: Some(UnaryOp { op: IsNotNull, expr: Column(ParsedColumnRef { qualifier: None, column: "name" }) }) })"#));

    let statement = parse_sql("select id from users where not (name is null)").unwrap();

    assert_eq!(format!("{statement:?}"), dedent(r#"Select(SelectStatement { table: BaseTable { table_name: "users", alias: None }, projection: [Expression(Column(ParsedColumnRef { qualifier: None, column: "id" }))], where_clause: Some(UnaryOp { op: Not, expr: UnaryOp { op: IsNull, expr: Column(ParsedColumnRef { qualifier: None, column: "name" }) } }) })"#));
}

#[test]
fn parses_insert_values_without_columns() {
    let statement = parse_sql("insert into users values (1, 'alice')").unwrap();

    assert_eq!(format!("{statement:#?}"), dedent(r#"
        Insert(
            InsertStatement {
                table_name: "users",
                columns: None,
                source: Values(
                    [
                        [
                            Literal(
                                Integer(
                                    1,
                                ),
                            ),
                            Literal(
                                Varchar(
                                    "alice",
                                ),
                            ),
                        ],
                    ],
                ),
            },
        )"#));

    let statement = parse_sql("insert into users values (1, 'alice'), (2, 'bob')").unwrap();

    assert_eq!(format!("{statement:#?}"), dedent(r#"
        Insert(
            InsertStatement {
                table_name: "users",
                columns: None,
                source: Values(
                    [
                        [
                            Literal(
                                Integer(
                                    1,
                                ),
                            ),
                            Literal(
                                Varchar(
                                    "alice",
                                ),
                            ),
                        ],
                        [
                            Literal(
                                Integer(
                                    2,
                                ),
                            ),
                            Literal(
                                Varchar(
                                    "bob",
                                ),
                            ),
                        ],
                    ],
                ),
            },
        )"#));
}

#[test]
fn parses_insert_columns_and_values() {
    let statement =
        parse_sql("insert into users (id, name) values (1, 'alice'), (2, 'bob')").unwrap();

    assert_eq!(format!("{statement:#?}"), dedent(r#"
        Insert(
            InsertStatement {
                table_name: "users",
                columns: Some(
                    [
                        "id",
                        "name",
                    ],
                ),
                source: Values(
                    [
                        [
                            Literal(
                                Integer(
                                    1,
                                ),
                            ),
                            Literal(
                                Varchar(
                                    "alice",
                                ),
                            ),
                        ],
                        [
                            Literal(
                                Integer(
                                    2,
                                ),
                            ),
                            Literal(
                                Varchar(
                                    "bob",
                                ),
                            ),
                        ],
                    ],
                ),
            },
        )"#));
}

#[test]
fn parses_insert_select() {
    let statement = parse_sql("insert into t2 select * from t1").unwrap();

    assert_eq!(format!("{statement:#?}"), dedent(r#"
        Insert(
            InsertStatement {
                table_name: "t2",
                columns: None,
                source: Select(
                    SelectStatement {
                        table: BaseTable {
                            table_name: "t1",
                            alias: None,
                        },
                        projection: [
                            Wildcard,
                        ],
                        where_clause: None,
                    },
                ),
            },
        )"#));
}

#[test]
fn parses_update_statement() {
    let statement =
        parse_sql("update users set name = 'bob', active = true where id = 1").unwrap();

    assert_eq!(format!("{statement:#?}"), dedent(r#"
        Update(
            UpdateStatement {
                table_name: "users",
                assignments: [
                    (
                        "name",
                        Literal(
                            Varchar(
                                "bob",
                            ),
                        ),
                    ),
                    (
                        "active",
                        Literal(
                            Boolean(
                                true,
                            ),
                        ),
                    ),
                ],
                where_clause: Some(
                    BinaryOp {
                        left: Column(
                            ParsedColumnRef {
                                qualifier: None,
                                column: "id",
                            },
                        ),
                        op: Eq,
                        right: Literal(
                            Integer(
                                1,
                            ),
                        ),
                    },
                ),
            },
        )"#));
}

#[test]
fn parses_delete_statement() {
    let statement = parse_sql("delete from users where id = 1").unwrap();

    assert_eq!(format!("{statement:#?}"), dedent(r#"
        Delete(
            DeleteStatement {
                table_name: "users",
                where_clause: Some(
                    BinaryOp {
                        left: Column(
                            ParsedColumnRef {
                                qualifier: None,
                                column: "id",
                            },
                        ),
                        op: Eq,
                        right: Literal(
                            Integer(
                                1,
                            ),
                        ),
                    },
                ),
            },
        )"#));
}

#[test]
fn rejects_qualified_update_targets() {
    let err = parse_sql("update users set users.name = 'bob'").unwrap_err();

    assert!(matches!(err, QueryError::UnsupportedStatement(_)));
}

#[test]
fn parses_create_table_with_varchar_size() {
    let statement = parse_sql("create table users (id integer, name varchar(32))").unwrap();

    assert_eq!(format!("{statement:#?}"), dedent(r#"
        CreateTable(
            CreateTableStatement {
                table_name: "users",
                columns: [
                    CreateColumn {
                        name: "id",
                        sql_type: Integer,
                        size: None,
                    },
                    CreateColumn {
                        name: "name",
                        sql_type: Varchar,
                        size: Some(
                            32,
                        ),
                    },
                ],
                primary_key: [],
            },
        )"#));
}

#[test]
fn parses_create_table_with_column_primary_key() {
    let statement =
        parse_sql("create table users (id integer primary key, name varchar(32))").unwrap();

    assert_eq!(format!("{statement:#?}"), dedent(r#"
        CreateTable(
            CreateTableStatement {
                table_name: "users",
                columns: [
                    CreateColumn {
                        name: "id",
                        sql_type: Integer,
                        size: None,
                    },
                    CreateColumn {
                        name: "name",
                        sql_type: Varchar,
                        size: Some(
                            32,
                        ),
                    },
                ],
                primary_key: [
                    "id",
                ],
            },
        )"#));
}

#[test]
fn parses_create_table_with_table_primary_key() {
    let statement =
        parse_sql("create table users (id integer, name varchar(32), primary key (id, name))")
            .unwrap();

    assert_eq!(format!("{statement:#?}"), dedent(r#"
        CreateTable(
            CreateTableStatement {
                table_name: "users",
                columns: [
                    CreateColumn {
                        name: "id",
                        sql_type: Integer,
                        size: None,
                    },
                    CreateColumn {
                        name: "name",
                        sql_type: Varchar,
                        size: Some(
                            32,
                        ),
                    },
                ],
                primary_key: [
                    "id",
                    "name",
                ],
            },
        )"#));
}

#[test]
fn rejects_non_primary_key_create_table_constraints() {
    let err = parse_sql("create table users (id integer not null)").unwrap_err();
    assert!(matches!(err, QueryError::UnsupportedStatement(_)));

    let err = parse_sql("create table users (id integer, unique (id))").unwrap_err();
    assert!(matches!(err, QueryError::UnsupportedStatement(_)));
}

#[test]
fn rejects_multiple_primary_key_declarations() {
    let err =
        parse_sql("create table users (id integer primary key, primary key (id))").unwrap_err();

    assert!(matches!(err, QueryError::UnsupportedStatement(_)));
}

#[test]
fn rejects_create_table_with_bare_varchar() {
    let err = parse_sql("create table users (name varchar)").unwrap_err();

    assert!(matches!(err, QueryError::VarcharMissingSize));
}

#[test]
fn rejects_float_and_real_data_types() {
    for sql_type in ["FLOAT", "REAL"] {
        let err = parse_sql(&format!("create table users (score {sql_type})")).unwrap_err();

        assert!(
            matches!(err, QueryError::UnsupportedDataType(data_type) if data_type.to_uppercase() == sql_type)
        );
    }
}

#[test]
fn rejects_multiple_statements() {
    let err = parse_sql("select * from users; select * from orders;").unwrap_err();

    assert!(matches!(err, QueryError::ExpectedSingleStatement));
}

#[test]
fn reports_text_that_does_not_parse() {
    let err = parse_sql("selec * fro users").unwrap_err();
    assert!(matches!(err, QueryError::Parse(_)));
}

#[test]
fn parsed_create_table_sizes_only_varchars() {
    let statement = parse_sql("create table users (id integer, name varchar(32))").unwrap();
    assert!(statement_is_valid(&statement));

    let sized_integer = Statement::CreateTable(CreateTableStatement {
        table_name: "t".to_string(),
        columns: vec![CreateColumn { name: "id".to_string(), sql_type: SqlType::Integer, size: Some(4) }],
        primary_key: vec![],
    });
    assert!(!statement_is_valid(&sized_integer));
}
