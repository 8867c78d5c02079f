//! sqlparser's syntax tree, copied part for part into the library's
//! `RawStatement`.
//!
//! Each function below moves the parts of one node that the library's rules
//! read into the matching `Raw*` value, and nothing else: no rule is decided
//! here. What the copy of a whole parse gives is named by
//! `crate::query::parser::sql_syntax`.

use vstd::prelude::*;
use sqlparser::ast::{
    Assignment, AssignmentTarget, BinaryOperator as SqlBinaryOperator, CharacterLength, ColumnDef,
    ColumnOption, CreateTable, DataType, Delete, Expr as SqlExpr, FromTable, IndexColumn, Insert,
    Join, JoinConstraint, JoinOperator, ObjectName, Query, Select, SelectItem as SqlSelectItem,
    SetExpr, Statement as SqlStatement, TableAlias, TableConstraint, TableFactor, TableObject,
    TableWithJoins, UnaryOperator as SqlUnaryOperator, Update, Value as SqlValue, ValueWithSpan,
};
use sqlparser::parser::ParserError;
use crate::query::parser::{
    SqlSyntaxError,
    RawAssignment, RawBinaryOp, RawColumnDef, RawColumnOption, RawCreateTable, RawDataType,
    RawDelete, RawExpr, RawFromTable, RawIndexColumn, RawInsert, RawJoin, RawJoinConstraint,
    RawJoinOperator, RawObjectName, RawSelect, RawSelectItem, RawSetExpr, RawStatement,
    RawTableAlias, RawTableConstraint, RawTableFactor, RawTableWithJoins, RawUnaryOp, RawUpdate,
    RawValue,
};

verus! {

#[verifier::external_type_specification]
#[verifier::external_body]
pub struct ExSqlQuery(sqlparser::ast::Query);

#[verifier::external_type_specification]
#[verifier::external_body]
pub struct ExSqlInsert(sqlparser::ast::Insert);

#[verifier::external_type_specification]
#[verifier::external_body]
pub struct ExSqlUpdate(sqlparser::ast::Update);

#[verifier::external_type_specification]
#[verifier::external_body]
pub struct ExSqlDelete(sqlparser::ast::Delete);

#[verifier::external_type_specification]
#[verifier::external_body]
pub struct ExSqlFromTable(sqlparser::ast::FromTable);

#[verifier::external_type_specification]
#[verifier::external_body]
pub struct ExSqlCreateTable(sqlparser::ast::CreateTable);

#[verifier::external_type_specification]
#[verifier::external_body]
pub struct ExSqlSelect(sqlparser::ast::Select);

#[verifier::external_type_specification]
#[verifier::external_body]
pub struct ExSqlExpr(sqlparser::ast::Expr);

#[verifier::external_type_specification]
#[verifier::external_body]
pub struct ExSqlValueWithSpan(sqlparser::ast::ValueWithSpan);

#[verifier::external_type_specification]
#[verifier::external_body]
pub struct ExSqlObjectName(sqlparser::ast::ObjectName);

#[verifier::external_type_specification]
#[verifier::external_body]
pub struct ExSqlTableWithJoins(sqlparser::ast::TableWithJoins);

#[verifier::external_type_specification]
#[verifier::external_body]
pub struct ExSqlTableFactor(sqlparser::ast::TableFactor);

#[verifier::external_type_specification]
#[verifier::external_body]
pub struct ExSqlTableAlias(sqlparser::ast::TableAlias);

#[verifier::external_type_specification]
#[verifier::external_body]
pub struct ExSqlJoin(sqlparser::ast::Join);

#[verifier::external_type_specification]
#[verifier::external_body]
pub struct ExSqlJoinConstraint(sqlparser::ast::JoinConstraint);

#[verifier::external_type_specification]
#[verifier::external_body]
pub struct ExSqlAssignment(sqlparser::ast::Assignment);

#[verifier::external_type_specification]
#[verifier::external_body]
pub struct ExSqlColumnDef(sqlparser::ast::ColumnDef);

#[verifier::external_type_specification]
#[verifier::external_body]
pub struct ExSqlTableConstraint(sqlparser::ast::TableConstraint);

#[verifier::external_type_specification]
#[verifier::external_body]
pub struct ExSqlIndexColumn(sqlparser::ast::IndexColumn);

#[verifier::external_type_specification]
#[verifier::external_body]
pub struct ExSqlDataType(sqlparser::ast::DataType);

#[verifier::external_type_specification]
#[verifier::external_body]
pub struct ExSqlParserError(sqlparser::parser::ParserError);

#[verifier::external_body]
pub(crate) fn raw_insert(insert: Insert) -> RawInsert {
    RawInsert {
        source: insert.source.map(|q| raw_query(*q)),
        table: match &insert.table {
            TableObject::TableName(name) => Some(raw_object_name(name)),
            _ => None,
        },
        columns: insert.columns.iter().map(raw_object_name).collect(),
    }
}

#[verifier::external_body]
pub(crate) fn raw_update(update: Update) -> RawUpdate {
    RawUpdate {
        optimizer_hints: !update.optimizer_hints.is_empty(),
        from: update.from.is_some(),
        returning: update.returning.is_some(),
        output: update.output.is_some(),
        or: update.or.is_some(),
        order_by: !update.order_by.is_empty(),
        limit: update.limit.is_some(),
        table: raw_table_with_joins(update.table),
        assignments: update.assignments.into_iter().map(raw_assignment).collect(),
        selection: update.selection.map(raw_expr),
    }
}

#[verifier::external_body]
pub(crate) fn raw_delete(delete: Delete) -> RawDelete {
    RawDelete {
        optimizer_hints: !delete.optimizer_hints.is_empty(),
        tables: !delete.tables.is_empty(),
        using: delete.using.is_some(),
        returning: delete.returning.is_some(),
        output: delete.output.is_some(),
        order_by: !delete.order_by.is_empty(),
        limit: delete.limit.is_some(),
        from: raw_from_table(delete.from),
        selection: delete.selection.map(raw_expr),
    }
}

#[verifier::external_body]
fn raw_from_table(from: FromTable) -> RawFromTable {
    match from {
        FromTable::WithFromKeyword(tables) => {
            RawFromTable::WithFromKeyword(tables.into_iter().map(raw_table_with_joins).collect())
        },
        FromTable::WithoutKeyword(_) => RawFromTable::WithoutKeyword,
    }
}

#[verifier::external_body]
pub(crate) fn raw_create_table(create: CreateTable) -> RawCreateTable {
    RawCreateTable {
        name: raw_object_name(&create.name),
        columns: create.columns.into_iter().map(raw_column_def).collect(),
        constraints: create.constraints.into_iter().map(raw_table_constraint).collect(),
    }
}

#[verifier::external_body]
pub(crate) fn raw_query(query: Query) -> RawSetExpr {
    match *query.body {
        SetExpr::Select(select) => RawSetExpr::Select(raw_select(*select)),
        SetExpr::Values(values) => RawSetExpr::Values(
            values.rows.into_iter().map(|row| row.content.into_iter().map(raw_expr).collect()).collect(),
        ),
        _ => RawSetExpr::Other,
    }
}

#[verifier::external_body]
fn raw_select(select: Select) -> RawSelect {
    RawSelect {
        from: select.from.into_iter().map(raw_table_with_joins).collect(),
        projection: select.projection.into_iter().map(|item| match item {
            SqlSelectItem::Wildcard(_) => RawSelectItem::Wildcard,
            SqlSelectItem::UnnamedExpr(expr) => RawSelectItem::UnnamedExpr(raw_expr(expr)),
            _ => RawSelectItem::Other,
        }).collect(),
        selection: select.selection.map(raw_expr),
    }
}

#[verifier::external_body]
fn raw_expr(expr: SqlExpr) -> RawExpr {
    let boxed = |e: Box<SqlExpr>| Box::new(raw_expr(*e));
    let (unary, binary) = (raw_unary_op(&expr), raw_binary_op(&expr));
    match expr {
        SqlExpr::Identifier(ident) => RawExpr::Identifier(ident.value),
        SqlExpr::CompoundIdentifier(ids) => RawExpr::CompoundIdentifier(ids.into_iter().map(|i| i.value).collect()),
        SqlExpr::Value(value) => RawExpr::Value(raw_value(value)),
        SqlExpr::UnaryOp { expr, .. } => RawExpr::UnaryOp { op: unary, expr: boxed(expr) },
        SqlExpr::BinaryOp { left, right, .. } => RawExpr::BinaryOp { left: boxed(left), op: binary, right: boxed(right) },
        other => raw_wrapping_expr(other),
    }
}

#[verifier::external_body]
fn raw_wrapping_expr(expr: SqlExpr) -> RawExpr {
    match expr {
        SqlExpr::IsNull(e) => RawExpr::IsNull(Box::new(raw_expr(*e))),
        SqlExpr::IsNotNull(e) => RawExpr::IsNotNull(Box::new(raw_expr(*e))),
        SqlExpr::Nested(e) => RawExpr::Nested(Box::new(raw_expr(*e))),
        _ => RawExpr::Other,
    }
}

#[verifier::external_body]
fn raw_value(value: ValueWithSpan) -> RawValue {
    match value.value {
        SqlValue::Boolean(b) => RawValue::Boolean(b),
        SqlValue::Number(s, long) => RawValue::Number(s.chars().collect(), long),
        SqlValue::SingleQuotedString(s) => RawValue::SingleQuotedString(s),
        SqlValue::Null => RawValue::Null,
        _ => RawValue::Other,
    }
}

#[verifier::external_body]
fn raw_unary_op(expr: &SqlExpr) -> RawUnaryOp {
    match expr {
        SqlExpr::UnaryOp { op: SqlUnaryOperator::Not, .. } => RawUnaryOp::Not,
        SqlExpr::UnaryOp { op: SqlUnaryOperator::Minus, .. } => RawUnaryOp::Minus,
        _ => RawUnaryOp::Other,
    }
}

#[verifier::external_body]
fn raw_binary_op(expr: &SqlExpr) -> RawBinaryOp {
    match expr {
        SqlExpr::BinaryOp { op: SqlBinaryOperator::Plus, .. } => RawBinaryOp::Plus,
        SqlExpr::BinaryOp { op: SqlBinaryOperator::Minus, .. } => RawBinaryOp::Minus,
        SqlExpr::BinaryOp { op: SqlBinaryOperator::And, .. } => RawBinaryOp::And,
        SqlExpr::BinaryOp { op: SqlBinaryOperator::Or, .. } => RawBinaryOp::Or,
        _ => raw_comparison_op(expr),
    }
}

#[verifier::external_body]
fn raw_comparison_op(expr: &SqlExpr) -> RawBinaryOp {
    match expr {
        SqlExpr::BinaryOp { op: SqlBinaryOperator::Eq, .. } => RawBinaryOp::Eq,
        SqlExpr::BinaryOp { op: SqlBinaryOperator::NotEq, .. } => RawBinaryOp::NotEq,
        SqlExpr::BinaryOp { op: SqlBinaryOperator::Lt, .. } => RawBinaryOp::Lt,
        SqlExpr::BinaryOp { op: SqlBinaryOperator::LtEq, .. } => RawBinaryOp::LtEq,
        SqlExpr::BinaryOp { op: SqlBinaryOperator::Gt, .. } => RawBinaryOp::Gt,
        SqlExpr::BinaryOp { op: SqlBinaryOperator::GtEq, .. } => RawBinaryOp::GtEq,
        _ => RawBinaryOp::Other,
    }
}

#[verifier::external_body]
fn raw_object_name(name: &ObjectName) -> RawObjectName {
    RawObjectName {
        text: name.to_string(),
        parts: name.0.iter().map(|part| part.as_ident().map(|ident| ident.value.clone())).collect(),
    }
}

#[verifier::external_body]
fn raw_table_with_joins(table: TableWithJoins) -> RawTableWithJoins {
    RawTableWithJoins {
        relation: raw_table_factor(table.relation),
        joins: table.joins.into_iter().map(raw_join).collect(),
    }
}

#[verifier::external_body]
fn raw_table_factor(factor: TableFactor) -> RawTableFactor {
    match factor {
        TableFactor::Table { name, alias, args, with_hints, version, with_ordinality, partitions, json_path, sample, index_hints } => {
            RawTableFactor::Table {
                name: raw_object_name(&name), alias: alias.map(raw_table_alias), args: args.is_some(),
                with_hints: !with_hints.is_empty(), version: version.is_some(), with_ordinality,
                partitions: !partitions.is_empty(), json_path: json_path.is_some(), sample: sample.is_some(),
                index_hints: !index_hints.is_empty(),
            }
        },
        _ => RawTableFactor::Other,
    }
}

#[verifier::external_body]
fn raw_table_alias(alias: TableAlias) -> RawTableAlias {
    RawTableAlias { name: alias.name.value, columns: !alias.columns.is_empty(), at: alias.at.is_some() }
}

#[verifier::external_body]
fn raw_join(join: Join) -> RawJoin {
    let operator = match join.join_operator {
        JoinOperator::Join(c) => RawJoinOperator::Join(raw_join_constraint(c)),
        JoinOperator::Inner(c) => RawJoinOperator::Inner(raw_join_constraint(c)),
        JoinOperator::Left(c) => RawJoinOperator::Left(raw_join_constraint(c)),
        JoinOperator::CrossJoin(c) => RawJoinOperator::CrossJoin(raw_join_constraint(c)),
        _ => RawJoinOperator::Other,
    };
    RawJoin { relation: raw_table_factor(join.relation), global: join.global, operator }
}

#[verifier::external_body]
fn raw_join_constraint(constraint: JoinConstraint) -> RawJoinConstraint {
    match constraint {
        JoinConstraint::On(expr) => RawJoinConstraint::On(raw_expr(expr)),
        JoinConstraint::None => RawJoinConstraint::Absent,
        _ => RawJoinConstraint::Other,
    }
}

#[verifier::external_body]
fn raw_assignment(assignment: Assignment) -> RawAssignment {
    match assignment.target {
        AssignmentTarget::ColumnName(name) => RawAssignment::Column(raw_object_name(&name), raw_expr(assignment.value)),
        _ => RawAssignment::Other,
    }
}

#[verifier::external_body]
fn raw_column_def(column: ColumnDef) -> RawColumnDef {
    let options = column.options.iter().map(|option| match option.option {
        ColumnOption::PrimaryKey(_) => RawColumnOption::PrimaryKey,
        _ => RawColumnOption::Other,
    });
    RawColumnDef { name: column.name.value, data_type: raw_data_type(column.data_type), options: options.collect() }
}

#[verifier::external_body]
fn raw_table_constraint(constraint: TableConstraint) -> RawTableConstraint {
    match constraint {
        TableConstraint::PrimaryKey(pk) => {
            RawTableConstraint::PrimaryKey(pk.columns.into_iter().map(raw_index_column).collect())
        },
        _ => RawTableConstraint::Other,
    }
}

#[verifier::external_body]
fn raw_index_column(column: IndexColumn) -> RawIndexColumn {
    match column.column.expr {
        SqlExpr::Identifier(ident) => RawIndexColumn::Identifier(ident.value),
        _ => RawIndexColumn::Other,
    }
}

#[verifier::external_body]
fn raw_data_type(data_type: DataType) -> RawDataType {
    match data_type {
        DataType::Boolean => RawDataType::Boolean,
        DataType::SmallInt(_) => RawDataType::SmallInt,
        DataType::Int(_) => RawDataType::Int,
        DataType::Integer(_) => RawDataType::Integer,
        DataType::BigInt(_) => RawDataType::BigInt,
        DataType::Double(_) => RawDataType::Double,
        DataType::Varchar(Some(CharacterLength::IntegerLength { length, .. })) => RawDataType::Varchar(Some(length)),
        DataType::Varchar(None) => RawDataType::Varchar(None),
        other => RawDataType::Other(other.to_string()),
    }
}

/// Copies sqlparser's error.
#[verifier::external_body]
pub(crate) fn syntax_error(e: ParserError) -> SqlSyntaxError {
    match e {
        ParserError::TokenizerError(m) => SqlSyntaxError::Tokenizer(m),
        ParserError::ParserError(m) => SqlSyntaxError::Parser(m),
        ParserError::RecursionLimitExceeded => SqlSyntaxError::RecursionLimitExceeded,
    }
}

} // verus!
