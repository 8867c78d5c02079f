//! From SQL text to the library's statements.
//!
//! sqlparser reads the text (PostgreSQL dialect); its syntax tree is copied,
//! part for part, into a `RawStatement`, which holds the parts that the rules
//! below read. The rules map it onto a `Statement`, refusing what the engine
//! does not support.

use vstd::prelude::*;
use crate::catalog::types::SqlType;
use crate::common::position::index_of;
use crate::query::expression::{BinaryOperator, ColumnQualifier, Expression, ParsedColumnRef, UnaryOperator};
use crate::query::statement::{
    CreateColumn, CreateTableStatement, DeleteStatement, InsertSource, InsertStatement, SelectItem,
    SelectStatement, Statement, UpdateStatement,
};
use crate::query::table_ref::{JoinType, TableRef};
use crate::types::value::Value;
use crate::query::syntax_tree::{raw_create_table, raw_delete, raw_insert, raw_query, raw_update, syntax_error};
use sqlparser::ast::Statement as SqlStatement;
use sqlparser::dialect::PostgreSqlDialect;
use sqlparser::parser::Parser;

verus! {

/// Why a statement cannot be turned into one the engine runs.
#[derive(Debug, PartialEq)]
pub enum QueryError {
    Parse(SqlSyntaxError),
    ExpectedSingleStatement,
    UnsupportedStatement(&'static str),
    UnsupportedQuery(&'static str),
    UnsupportedExpression,
    UnsupportedDataType(String),
    VarcharMissingSize,
}

/// Why sqlparser could not read the text: its tokenizer or its parser
/// refused it (with sqlparser's message), or the text nests too deeply.
#[derive(Debug, PartialEq)]
pub enum SqlSyntaxError {
    Tokenizer(String),
    Parser(String),
    RecursionLimitExceeded,
}

// ---------------------------------------------------------------------
// The syntax tree, as the parser gives it
// ---------------------------------------------------------------------

/// A statement of the syntax tree.
#[derive(Debug)]
pub enum RawStatement {
    Query(RawSetExpr),
    Insert(RawInsert),
    Update(RawUpdate),
    Delete(RawDelete),
    CreateTable(RawCreateTable),
    Other,
}

/// The body of a query.
#[derive(Debug)]
pub enum RawSetExpr {
    Select(RawSelect),
    /// Rows of a VALUES list.
    Values(Vec<Vec<RawExpr>>),
    Other,
}

#[derive(Debug)]
pub struct RawSelect {
    pub from: Vec<RawTableWithJoins>,
    pub projection: Vec<RawSelectItem>,
    pub selection: Option<RawExpr>,
}

#[derive(Debug)]
pub enum RawSelectItem {
    Wildcard,
    UnnamedExpr(RawExpr),
    Other,
}

#[derive(Debug)]
pub enum RawExpr {
    Identifier(String),
    CompoundIdentifier(Vec<String>),
    Value(RawValue),
    UnaryOp { op: RawUnaryOp, expr: Box<RawExpr> },
    BinaryOp { left: Box<RawExpr>, op: RawBinaryOp, right: Box<RawExpr> },
    IsNull(Box<RawExpr>),
    IsNotNull(Box<RawExpr>),
    Nested(Box<RawExpr>),
    Other,
}

#[derive(Debug)]
pub enum RawValue {
    Boolean(bool),
    /// The digits as written, and whether the number is marked long.
    Number(Vec<char>, bool),
    SingleQuotedString(String),
    Null,
    Other,
}

#[derive(Debug)]
pub enum RawUnaryOp {
    Not,
    Minus,
    Other,
}

#[derive(Debug)]
pub enum RawBinaryOp {
    Plus,
    Minus,
    Eq,
    NotEq,
    Lt,
    LtEq,
    Gt,
    GtEq,
    And,
    Or,
    Other,
}

/// A possibly qualified name.
#[derive(Debug)]
pub struct RawObjectName {
    /// The name as written, its parts joined by dots.
    pub text: String,
    /// Each part, where it is an identifier.
    pub parts: Vec<Option<String>>,
}

#[derive(Debug)]
pub struct RawTableWithJoins {
    pub relation: RawTableFactor,
    pub joins: Vec<RawJoin>,
}

/// A table of a FROM clause. The flags say whether the table carries
/// arguments, hints, a version, WITH ORDINALITY, partitions, a JSON path,
/// a sample or index hints.
#[derive(Debug)]
pub enum RawTableFactor {
    Table {
        name: RawObjectName,
        alias: Option<RawTableAlias>,
        args: bool,
        with_hints: bool,
        version: bool,
        with_ordinality: bool,
        partitions: bool,
        json_path: bool,
        sample: bool,
        index_hints: bool,
    },
    Other,
}

/// A table alias; the flags say whether it names columns or has an `AT`.
#[derive(Debug)]
pub struct RawTableAlias {
    pub name: String,
    pub columns: bool,
    pub at: bool,
}

#[derive(Debug)]
pub struct RawJoin {
    pub relation: RawTableFactor,
    pub global: bool,
    pub operator: RawJoinOperator,
}

#[derive(Debug)]
pub enum RawJoinOperator {
    Join(RawJoinConstraint),
    Inner(RawJoinConstraint),
    Left(RawJoinConstraint),
    CrossJoin(RawJoinConstraint),
    Other,
}

#[derive(Debug)]
pub enum RawJoinConstraint {
    On(RawExpr),
    /// No constraint at all.
    Absent,
    Other,
}

/// An INSERT: its source query's body, if it has one; its target, where
/// that is a table name; the columns it lists.
#[derive(Debug)]
pub struct RawInsert {
    pub source: Option<RawSetExpr>,
    pub table: Option<RawObjectName>,
    pub columns: Vec<RawObjectName>,
}

/// An UPDATE; the flags say whether it carries optimizer hints, a FROM,
/// RETURNING, OUTPUT, an OR clause, ORDER BY or LIMIT.
#[derive(Debug)]
pub struct RawUpdate {
    pub optimizer_hints: bool,
    pub from: bool,
    pub returning: bool,
    pub output: bool,
    pub or: bool,
    pub order_by: bool,
    pub limit: bool,
    pub table: RawTableWithJoins,
    pub assignments: Vec<RawAssignment>,
    pub selection: Option<RawExpr>,
}

#[derive(Debug)]
pub enum RawAssignment {
    /// `name = value`
    Column(RawObjectName, RawExpr),
    Other,
}

/// A DELETE; the flags say whether it carries optimizer hints, tables
/// before FROM, USING, RETURNING, OUTPUT, ORDER BY or LIMIT.
#[derive(Debug)]
pub struct RawDelete {
    pub optimizer_hints: bool,
    pub tables: bool,
    pub using: bool,
    pub returning: bool,
    pub output: bool,
    pub order_by: bool,
    pub limit: bool,
    pub from: RawFromTable,
    pub selection: Option<RawExpr>,
}

#[derive(Debug)]
pub enum RawFromTable {
    WithFromKeyword(Vec<RawTableWithJoins>),
    WithoutKeyword,
}

#[derive(Debug)]
pub struct RawCreateTable {
    pub name: RawObjectName,
    pub columns: Vec<RawColumnDef>,
    pub constraints: Vec<RawTableConstraint>,
}

#[derive(Debug)]
pub struct RawColumnDef {
    pub name: String,
    pub data_type: RawDataType,
    pub options: Vec<RawColumnOption>,
}

#[derive(Debug)]
pub enum RawColumnOption {
    PrimaryKey,
    Other,
}

#[derive(Debug)]
pub enum RawTableConstraint {
    PrimaryKey(Vec<RawIndexColumn>),
    Other,
}

#[derive(Debug)]
pub enum RawIndexColumn {
    Identifier(String),
    Other,
}

#[derive(Debug)]
pub enum RawDataType {
    Boolean,
    SmallInt,
    Int,
    Integer,
    BigInt,
    Double,
    /// VARCHAR with its length, where one is given as a number.
    Varchar(Option<u64>),
    /// Any other type, as written.
    Other(String),
}

// ---------------------------------------------------------------------
// Numbers
// ---------------------------------------------------------------------

pub open spec fn is_digit(c: char) -> bool {
    '0' <= c && c <= '9'
}

pub open spec fn digit_value(c: char) -> int {
    (c as u32) - ('0' as u32)
}

/// The value of a string of decimal digits.
pub open spec fn digits_value(ds: Seq<char>) -> int
    decreases ds.len(),
{
    if ds.len() == 0 {
        0
    } else {
        digits_value(ds.drop_last()) * 10 + digit_value(ds.last())
    }
}

/// Every character is a decimal digit.
pub open spec fn all_digits(ds: Seq<char>) -> bool {
    forall|i: int| 0 <= i < ds.len() ==> is_digit(#[trigger] ds[i])
}

/// A string without its leading sign, if it has one.
pub open spec fn unsigned_part(s: Seq<char>) -> Seq<char> {
    if s.len() > 0 && (s[0] == '-' || s[0] == '+') { s.drop_first() } else { s }
}

/// The `i32` that a string denotes as Rust reads it: an optional `+` or
/// `-`, then one or more decimal digits, and a value in range.
pub open spec fn decimal_i32(s: Seq<char>) -> Option<i32> {
    let ds = unsigned_part(s);
    let v = if s.len() > 0 && s[0] == '-' { -digits_value(ds) } else { digits_value(ds) };
    if ds.len() == 0 || !all_digits(ds) {
        None
    } else if i32::MIN <= v && v <= i32::MAX {
        Some(v as i32)
    } else {
        None
    }
}

proof fn lemma_digits_value_nonneg(ds: Seq<char>)
    requires
        all_digits(ds),
    ensures
        digits_value(ds) >= 0,
    decreases ds.len(),
{
    if ds.len() > 0 {
        lemma_digits_value_nonneg(ds.drop_last());
        assert(is_digit(ds[ds.len() - 1]));
    }
}

/// Reads a decimal `i32` as Rust's `str::parse` does.
pub fn parse_i32(s: &Vec<char>) -> (res: Option<i32>)
    ensures
        res == decimal_i32(s@),
{
    let n = s.len();
    let mut start: usize = 0;
    let mut neg = false;
    if n > 0 && (s[0] == '-' || s[0] == '+') {
        neg = s[0] == '-';
        start = 1;
    }
    let ghost ds = unsigned_part(s@);
    if start == n {
        return None;
    }
    // the value read so far, capped just past the largest magnitude an
    // `i32` has
    let cap: i64 = 2147483649;
    let mut acc: i64 = 0;
    let mut i: usize = start;
    while i < n
        invariant
            start <= i <= n,
            n == s@.len(),
            ds == s@.subrange(index_of(start), n as int),
            ds == unsigned_part(s@),
            0 <= acc <= cap,
            cap == 2147483649,
            forall|k: int| 0 <= k < i - start ==> is_digit(#[trigger] ds[k]),
            acc == (if digits_value(ds.take(i - start)) < cap { digits_value(ds.take(i - start)) } else { cap as int }),
        decreases n - i,
    {
        let c = s[i];
        if !('0' <= c && c <= '9') {
            proof {
                assert(ds.len() == n - start);
                assert(ds[i - start] == c);
                assert(!is_digit(ds[i - start]));
                assert(!all_digits(ds));
            }
            return None;
        }
        let d = (c as u32 - '0' as u32) as i64;
        proof {
            let pre = ds.take(i - start);
            assert(ds.take(i - start + 1).drop_last() =~= pre);
            lemma_digits_value_nonneg(pre);
        }
        acc = if acc * 10 + d < cap { acc * 10 + d } else { cap };
        i = i + 1;
    }
    proof {
        assert(ds.take(n - start) =~= ds);
        lemma_digits_value_nonneg(ds);
    }
    let v: i64 = if neg { -acc } else { acc };
    if v < -2147483648 || v > 2147483647 {
        None
    } else {
        Some(v as i32)
    }
}

// ---------------------------------------------------------------------
// Expressions
// ---------------------------------------------------------------------

pub open spec fn unary_op_of(op: RawUnaryOp) -> Result<UnaryOperator, QueryError> {
    match op {
        RawUnaryOp::Not => Ok(UnaryOperator::Not),
        RawUnaryOp::Minus => Ok(UnaryOperator::Neg),
        RawUnaryOp::Other => Err(QueryError::UnsupportedExpression),
    }
}

pub open spec fn binary_op_of(op: RawBinaryOp) -> Result<BinaryOperator, QueryError> {
    match op {
        RawBinaryOp::Plus => Ok(BinaryOperator::Plus),
        RawBinaryOp::Minus => Ok(BinaryOperator::Minus),
        RawBinaryOp::Eq => Ok(BinaryOperator::Eq),
        RawBinaryOp::NotEq => Ok(BinaryOperator::NotEq),
        RawBinaryOp::Lt => Ok(BinaryOperator::Lt),
        RawBinaryOp::LtEq => Ok(BinaryOperator::LtEq),
        RawBinaryOp::Gt => Ok(BinaryOperator::Gt),
        RawBinaryOp::GtEq => Ok(BinaryOperator::GtEq),
        RawBinaryOp::And => Ok(BinaryOperator::And),
        RawBinaryOp::Or => Ok(BinaryOperator::Or),
        RawBinaryOp::Other => Err(QueryError::UnsupportedExpression),
    }
}

/// A literal: booleans, strings and NULL (typed INTEGER) as they are; a
/// number only where it is an `i32`.
pub open spec fn value_of(v: RawValue) -> Result<Expression, QueryError> {
    match v {
        RawValue::Boolean(b) => Ok(Expression::Literal(Value::Boolean(b))),
        RawValue::Number(ds, long) => if long {
            Err(QueryError::UnsupportedExpression)
        } else {
            match decimal_i32(ds@) {
                Some(i) => Ok(Expression::Literal(Value::Integer(i))),
                None => Err(QueryError::UnsupportedExpression),
            }
        },
        RawValue::SingleQuotedString(s) => Ok(Expression::Literal(Value::Varchar(s))),
        RawValue::Null => Ok(Expression::Literal(Value::Null(SqlType::Integer))),
        RawValue::Other => Err(QueryError::UnsupportedExpression),
    }
}

/// A column named by two parts (table, column) or three (schema, table,
/// column).
pub open spec fn compound_of(ids: Seq<String>) -> Result<Expression, QueryError> {
    if ids.len() == 2 {
        Ok(Expression::Column(ParsedColumnRef {
            qualifier: Some(ColumnQualifier::Table { table: ids[0] }),
            column: ids[1],
        }))
    } else if ids.len() == 3 {
        Ok(Expression::Column(ParsedColumnRef {
            qualifier: Some(ColumnQualifier::SchemaTable { schema: ids[0], table: ids[1] }),
            column: ids[2],
        }))
    } else {
        Err(QueryError::UnsupportedExpression)
    }
}

/// An expression: operands are read left to right and the first error is
/// the outcome; IS NULL and IS NOT NULL become unary operators and
/// parentheses go.
pub open spec fn expr_of(e: RawExpr) -> Result<Expression, QueryError>
    decreases e,
{
    match e {
        RawExpr::Identifier(s) => Ok(Expression::Column(ParsedColumnRef { qualifier: None, column: s })),
        RawExpr::CompoundIdentifier(ids) => compound_of(ids@),
        RawExpr::Value(v) => value_of(v),
        RawExpr::UnaryOp { op, expr } => match unary_op_of(op) {
            Err(err) => Err(err),
            Ok(o) => match expr_of(*expr) {
                Err(err) => Err(err),
                Ok(x) => Ok(Expression::UnaryOp { op: o, expr: Box::new(x) }),
            },
        },
        RawExpr::BinaryOp { left, op, right } => match expr_of(*left) {
            Err(err) => Err(err),
            Ok(l) => match binary_op_of(op) {
                Err(err) => Err(err),
                Ok(o) => match expr_of(*right) {
                    Err(err) => Err(err),
                    Ok(r) => Ok(Expression::BinaryOp { left: Box::new(l), op: o, right: Box::new(r) }),
                },
            },
        },
        RawExpr::IsNull(x) => match expr_of(*x) {
            Err(err) => Err(err),
            Ok(inner) => Ok(Expression::UnaryOp { op: UnaryOperator::IsNull, expr: Box::new(inner) }),
        },
        RawExpr::IsNotNull(x) => match expr_of(*x) {
            Err(err) => Err(err),
            Ok(inner) => Ok(Expression::UnaryOp { op: UnaryOperator::IsNotNull, expr: Box::new(inner) }),
        },
        RawExpr::Nested(x) => expr_of(*x),
        RawExpr::Other => Err(QueryError::UnsupportedExpression),
    }
}

pub fn convert_unary_op(op: RawUnaryOp) -> (res: Result<UnaryOperator, QueryError>)
    ensures
        res == unary_op_of(op),
{
    match op {
        RawUnaryOp::Not => Ok(UnaryOperator::Not),
        RawUnaryOp::Minus => Ok(UnaryOperator::Neg),
        RawUnaryOp::Other => Err(QueryError::UnsupportedExpression),
    }
}

pub fn convert_binary_op(op: RawBinaryOp) -> (res: Result<BinaryOperator, QueryError>)
    ensures
        res == binary_op_of(op),
{
    match op {
        RawBinaryOp::Plus => Ok(BinaryOperator::Plus),
        RawBinaryOp::Minus => Ok(BinaryOperator::Minus),
        RawBinaryOp::Eq => Ok(BinaryOperator::Eq),
        RawBinaryOp::NotEq => Ok(BinaryOperator::NotEq),
        RawBinaryOp::Lt => Ok(BinaryOperator::Lt),
        RawBinaryOp::LtEq => Ok(BinaryOperator::LtEq),
        RawBinaryOp::Gt => Ok(BinaryOperator::Gt),
        RawBinaryOp::GtEq => Ok(BinaryOperator::GtEq),
        RawBinaryOp::And => Ok(BinaryOperator::And),
        RawBinaryOp::Or => Ok(BinaryOperator::Or),
        RawBinaryOp::Other => Err(QueryError::UnsupportedExpression),
    }
}

pub fn convert_value(v: RawValue) -> (res: Result<Expression, QueryError>)
    ensures
        res == value_of(v),
{
    match v {
        RawValue::Boolean(b) => Ok(Expression::Literal(Value::Boolean(b))),
        RawValue::Number(ds, long) => {
            if long {
                return Err(QueryError::UnsupportedExpression);
            }
            match parse_i32(&ds) {
                Some(i) => Ok(Expression::Literal(Value::Integer(i))),
                None => Err(QueryError::UnsupportedExpression),
            }
        },
        RawValue::SingleQuotedString(s) => Ok(Expression::Literal(Value::Varchar(s))),
        RawValue::Null => Ok(Expression::Literal(Value::Null(SqlType::Integer))),
        RawValue::Other => Err(QueryError::UnsupportedExpression),
    }
}

pub fn convert_compound_column_ref(ids: Vec<String>) -> (res: Result<Expression, QueryError>)
    ensures
        res == compound_of(ids@),
{
    let mut ids = ids;
    let ghost all = ids@;
    if ids.len() == 2 {
        let column = ids.pop().unwrap();
        let table = ids.pop().unwrap();
        Ok(Expression::Column(ParsedColumnRef { qualifier: Some(ColumnQualifier::Table { table }), column }))
    } else if ids.len() == 3 {
        let column = ids.pop().unwrap();
        let table = ids.pop().unwrap();
        let schema = ids.pop().unwrap();
        Ok(Expression::Column(ParsedColumnRef { qualifier: Some(ColumnQualifier::SchemaTable { schema, table }), column }))
    } else {
        Err(QueryError::UnsupportedExpression)
    }
}

pub fn convert_expr(e: RawExpr) -> (res: Result<Expression, QueryError>)
    ensures
        res == expr_of(e),
    decreases e,
{
    match e {
        RawExpr::Identifier(s) => Ok(Expression::Column(ParsedColumnRef { qualifier: None, column: s })),
        RawExpr::CompoundIdentifier(ids) => convert_compound_column_ref(ids),
        RawExpr::Value(v) => convert_value(v),
        RawExpr::UnaryOp { op, expr } => {
            let o = convert_unary_op(op)?;
            let x = convert_expr(*expr)?;
            Ok(Expression::UnaryOp { op: o, expr: Box::new(x) })
        },
        RawExpr::BinaryOp { left, op, right } => {
            let l = convert_expr(*left)?;
            let o = convert_binary_op(op)?;
            let r = convert_expr(*right)?;
            Ok(Expression::BinaryOp { left: Box::new(l), op: o, right: Box::new(r) })
        },
        RawExpr::IsNull(x) => {
            let inner = convert_expr(*x)?;
            Ok(Expression::UnaryOp { op: UnaryOperator::IsNull, expr: Box::new(inner) })
        },
        RawExpr::IsNotNull(x) => {
            let inner = convert_expr(*x)?;
            Ok(Expression::UnaryOp { op: UnaryOperator::IsNotNull, expr: Box::new(inner) })
        },
        RawExpr::Nested(x) => convert_expr(*x),
        RawExpr::Other => Err(QueryError::UnsupportedExpression),
    }
}

// ---------------------------------------------------------------------
// Tables
// ---------------------------------------------------------------------

pub open spec fn alias_of(a: Option<RawTableAlias>) -> Result<Option<String>, QueryError> {
    match a {
        None => Ok(None),
        Some(al) => if al.columns || al.at {
            Err(QueryError::UnsupportedQuery("table alias columns are not supported"))
        } else {
            Ok(Some(al.name))
        },
    }
}

/// A base table of a FROM clause, with no feature beyond a name and an
/// alias.
pub open spec fn factor_of(f: RawTableFactor) -> Result<TableRef, QueryError> {
    match f {
        RawTableFactor::Table { name, alias, args, with_hints, version, with_ordinality, partitions, json_path, sample, index_hints } => {
            if args || with_hints || version || with_ordinality || partitions || json_path || sample || index_hints {
                Err(QueryError::UnsupportedQuery("unsupported FROM table feature"))
            } else {
                match alias_of(alias) {
                    Err(e) => Err(e),
                    Ok(a) => Ok(TableRef::BaseTable { table_name: name.text, alias: a }),
                }
            }
        },
        RawTableFactor::Other => Err(QueryError::UnsupportedQuery("FROM source must be a base table")),
    }
}

pub open spec fn constraint_of(c: RawJoinConstraint) -> Result<Expression, QueryError> {
    match c {
        RawJoinConstraint::On(e) => expr_of(e),
        _ => Err(QueryError::UnsupportedQuery("JOIN and LEFT JOIN require an ON condition")),
    }
}

/// A join: its table, then its kind and condition.
pub open spec fn join_of(j: RawJoin) -> Result<(JoinType, TableRef, Option<Expression>), QueryError> {
    if j.global {
        Err(QueryError::UnsupportedQuery("GLOBAL JOIN is not supported"))
    } else {
        match factor_of(j.relation) {
            Err(e) => Err(e),
            Ok(right) => match j.operator {
                RawJoinOperator::Join(c) => match constraint_of(c) {
                    Err(e) => Err(e),
                    Ok(x) => Ok((JoinType::Inner, right, Some(x))),
                },
                RawJoinOperator::Inner(c) => match constraint_of(c) {
                    Err(e) => Err(e),
                    Ok(x) => Ok((JoinType::Inner, right, Some(x))),
                },
                RawJoinOperator::Left(c) => match constraint_of(c) {
                    Err(e) => Err(e),
                    Ok(x) => Ok((JoinType::Left, right, Some(x))),
                },
                RawJoinOperator::CrossJoin(RawJoinConstraint::Absent) => Ok((JoinType::Cross, right, None)),
                _ => Err(QueryError::UnsupportedQuery("only JOIN, INNER JOIN, LEFT JOIN, and CROSS JOIN are supported")),
            },
        }
    }
}

/// The first `n` joins applied in turn to `left`: each makes the tree so
/// far the left side of a new join.
pub open spec fn joins_of(left: TableRef, joins: Seq<RawJoin>, n: int) -> Result<TableRef, QueryError>
    decreases n,
{
    if n <= 0 {
        Ok(left)
    } else {
        match joins_of(left, joins, n - 1) {
            Err(e) => Err(e),
            Ok(t) => match join_of(joins[n - 1]) {
                Err(e) => Err(e),
                Ok((join_type, right, condition)) => Ok(TableRef::Join {
                    left: Box::new(t),
                    right: Box::new(right),
                    join_type,
                    condition,
                }),
            },
        }
    }
}

pub open spec fn table_with_joins_of(t: RawTableWithJoins) -> Result<TableRef, QueryError> {
    match factor_of(t.relation) {
        Err(e) => Err(e),
        Ok(left) => joins_of(left, t.joins@, t.joins@.len() as int),
    }
}

proof fn lemma_joins_err_sticks(left: TableRef, joins: Seq<RawJoin>, k: int, n: int)
    requires
        0 <= k <= n,
        joins_of(left, joins, k) is Err,
    ensures
        joins_of(left, joins, n) == joins_of(left, joins, k),
    decreases n - k,
{
    if k < n {
        lemma_joins_err_sticks(left, joins, k, n - 1);
    }
}

pub fn convert_table_alias(a: Option<RawTableAlias>) -> (res: Result<Option<String>, QueryError>)
    ensures
        res == alias_of(a),
{
    match a {
        None => Ok(None),
        Some(al) => {
            if al.columns || al.at {
                return Err(QueryError::UnsupportedQuery("table alias columns are not supported"));
            }
            Ok(Some(al.name))
        },
    }
}

pub fn convert_table_factor(f: RawTableFactor) -> (res: Result<TableRef, QueryError>)
    ensures
        res == factor_of(f),
{
    match f {
        RawTableFactor::Table { name, alias, args, with_hints, version, with_ordinality, partitions, json_path, sample, index_hints } => {
            if args || with_hints || version || with_ordinality || partitions || json_path || sample || index_hints {
                return Err(QueryError::UnsupportedQuery("unsupported FROM table feature"));
            }
            let alias = convert_table_alias(alias)?;
            Ok(TableRef::BaseTable { table_name: name.text, alias })
        },
        RawTableFactor::Other => Err(QueryError::UnsupportedQuery("FROM source must be a base table")),
    }
}

fn convert_join_on_constraint(c: RawJoinConstraint) -> (res: Result<Expression, QueryError>)
    ensures
        res == constraint_of(c),
{
    match c {
        RawJoinConstraint::On(e) => convert_expr(e),
        _ => Err(QueryError::UnsupportedQuery("JOIN and LEFT JOIN require an ON condition")),
    }
}

pub fn convert_join(j: RawJoin) -> (res: Result<(JoinType, TableRef, Option<Expression>), QueryError>)
    ensures
        res == join_of(j),
{
    if j.global {
        return Err(QueryError::UnsupportedQuery("GLOBAL JOIN is not supported"));
    }
    let right = convert_table_factor(j.relation)?;
    match j.operator {
        RawJoinOperator::Join(c) => {
            let x = convert_join_on_constraint(c)?;
            Ok((JoinType::Inner, right, Some(x)))
        },
        RawJoinOperator::Inner(c) => {
            let x = convert_join_on_constraint(c)?;
            Ok((JoinType::Inner, right, Some(x)))
        },
        RawJoinOperator::Left(c) => {
            let x = convert_join_on_constraint(c)?;
            Ok((JoinType::Left, right, Some(x)))
        },
        RawJoinOperator::CrossJoin(RawJoinConstraint::Absent) => Ok((JoinType::Cross, right, None)),
        _ => Err(QueryError::UnsupportedQuery("only JOIN, INNER JOIN, LEFT JOIN, and CROSS JOIN are supported")),
    }
}

pub fn convert_table_with_joins(t: RawTableWithJoins) -> (res: Result<TableRef, QueryError>)
    ensures
        res == table_with_joins_of(t),
{
    let ghost joins = t.joins@;
    let mut table_ref = convert_table_factor(t.relation)?;
    let ghost left = table_ref;
    let ghost goal = table_with_joins_of(t);
    assert(goal == joins_of(left, joins, joins.len() as int));
    let mut rest = t.joins;
    let n: usize = rest.len();
    let mut i: usize = 0;
    while rest.len() > 0
        invariant
            i + rest@.len() == n,
            n == joins.len(),
            rest@ == joins.skip(i as int),
            joins_of(left, joins, i as int) == Ok::<TableRef, QueryError>(table_ref),
            goal == joins_of(left, joins, joins.len() as int),
            goal == table_with_joins_of(t),
        decreases rest@.len(),
    {
        let ghost before = rest@;
        let join = rest.remove(0);
        assert(join == joins[i as int]);
        assert(rest@ =~= joins.skip(i as int + 1));
        match convert_join(join) {
            Err(e) => {
                proof {
                    lemma_joins_err_sticks(left, joins, i as int + 1, n as int);
                }
                return Err(e);
            },
            Ok((join_type, right, condition)) => {
                table_ref = TableRef::Join { left: Box::new(table_ref), right: Box::new(right), join_type, condition };
            },
        }
        i = i + 1;
    }
    Ok(table_ref)
}

// ---------------------------------------------------------------------
// SELECT
// ---------------------------------------------------------------------

pub open spec fn item_of(item: RawSelectItem) -> Result<SelectItem, QueryError> {
    match item {
        RawSelectItem::Wildcard => Ok(SelectItem::Wildcard),
        RawSelectItem::UnnamedExpr(e) => match expr_of(e) {
            Err(err) => Err(err),
            Ok(x) => Ok(SelectItem::Expression(x)),
        },
        RawSelectItem::Other => Err(QueryError::UnsupportedQuery("only wildcard and unnamed select expressions are supported")),
    }
}

/// The first `n` select items; the first error is the outcome.
pub open spec fn items_of(items: Seq<RawSelectItem>, n: int) -> Result<Seq<SelectItem>, QueryError>
    decreases n,
{
    if n <= 0 {
        Ok(Seq::empty())
    } else {
        match items_of(items, n - 1) {
            Err(e) => Err(e),
            Ok(prev) => match item_of(items[n - 1]) {
                Err(e) => Err(e),
                Ok(x) => Ok(prev.push(x)),
            },
        }
    }
}

/// The first `n` expressions; the first error is the outcome.
pub open spec fn exprs_of(es: Seq<RawExpr>, n: int) -> Result<Seq<Expression>, QueryError>
    decreases n,
{
    if n <= 0 {
        Ok(Seq::empty())
    } else {
        match exprs_of(es, n - 1) {
            Err(e) => Err(e),
            Ok(prev) => match expr_of(es[n - 1]) {
                Err(e) => Err(e),
                Ok(x) => Ok(prev.push(x)),
            },
        }
    }
}

pub open spec fn opt_expr_of(e: Option<RawExpr>) -> Result<Option<Expression>, QueryError> {
    match e {
        None => Ok(None),
        Some(x) => match expr_of(x) {
            Err(err) => Err(err),
            Ok(v) => Ok(Some(v)),
        },
    }
}

/// Why a SELECT is refused, if it is: exactly one FROM group is needed;
/// then the select items, the WHERE clause and the FROM group are read in
/// that order.
pub open spec fn select_error(s: RawSelect) -> Option<QueryError> {
    if s.from@.len() != 1 {
        Some(QueryError::UnsupportedQuery("only one FROM table group is supported"))
    } else {
        match items_of(s.projection@, s.projection@.len() as int) {
            Err(e) => Some(e),
            Ok(_) => match opt_expr_of(s.selection) {
                Err(e) => Some(e),
                Ok(_) => match table_with_joins_of(s.from@[0]) {
                    Err(e) => Some(e),
                    Ok(_) => None,
                },
            },
        }
    }
}

/// What an accepted SELECT becomes.
pub open spec fn select_is(s: RawSelect, st: SelectStatement) -> bool {
    &&& items_of(s.projection@, s.projection@.len() as int) == Ok::<Seq<SelectItem>, QueryError>(st.projection@)
    &&& opt_expr_of(s.selection) == Ok::<Option<Expression>, QueryError>(st.where_clause)
    &&& table_with_joins_of(s.from@[0]) == Ok::<TableRef, QueryError>(st.table)
}

pub open spec fn select_converted(s: RawSelect, res: Result<SelectStatement, QueryError>) -> bool {
    match select_error(s) {
        Some(e) => res == Err::<SelectStatement, QueryError>(e),
        None => res matches Ok(st) && select_is(s, st),
    }
}

proof fn lemma_items_err_sticks(items: Seq<RawSelectItem>, k: int, n: int)
    requires
        0 <= k <= n,
        items_of(items, k) is Err,
    ensures
        items_of(items, n) == items_of(items, k),
    decreases n - k,
{
    if k < n {
        lemma_items_err_sticks(items, k, n - 1);
    }
}

proof fn lemma_exprs_err_sticks(es: Seq<RawExpr>, k: int, n: int)
    requires
        0 <= k <= n,
        exprs_of(es, k) is Err,
    ensures
        exprs_of(es, n) == exprs_of(es, k),
    decreases n - k,
{
    if k < n {
        lemma_exprs_err_sticks(es, k, n - 1);
    }
}

fn convert_select_items(items: Vec<RawSelectItem>) -> (res: Result<Vec<SelectItem>, QueryError>)
    ensures
        match items_of(items@, items@.len() as int) {
            Ok(xs) => res matches Ok(v) && v@ == xs,
            Err(e) => res == Err::<Vec<SelectItem>, QueryError>(e),
        },
{
    let ghost all = items@;
    let mut rest = items;
    let n: usize = rest.len();
    let mut out: Vec<SelectItem> = Vec::new();
    let mut i: usize = 0;
    while rest.len() > 0
        invariant
            i + rest@.len() == n,
            n == all.len(),
            all == items@,
            rest@ == all.skip(i as int),
            items_of(all, i as int) == Ok::<Seq<SelectItem>, QueryError>(out@),
        decreases rest@.len(),
    {
        let item = rest.remove(0);
        assert(item == all[i as int]);
        assert(rest@ =~= all.skip(i as int + 1));
        let converted = match item {
            RawSelectItem::Wildcard => Ok(SelectItem::Wildcard),
            RawSelectItem::UnnamedExpr(e) => match convert_expr(e) {
                Err(err) => Err(err),
                Ok(x) => Ok(SelectItem::Expression(x)),
            },
            RawSelectItem::Other => Err(QueryError::UnsupportedQuery("only wildcard and unnamed select expressions are supported")),
        };
        match converted {
            Err(e) => {
                proof {
                    lemma_items_err_sticks(all, i as int + 1, n as int);
                }
                return Err(e);
            },
            Ok(x) => out.push(x),
        }
        i = i + 1;
    }
    Ok(out)
}

fn convert_exprs(es: Vec<RawExpr>) -> (res: Result<Vec<Expression>, QueryError>)
    ensures
        match exprs_of(es@, es@.len() as int) {
            Ok(xs) => res matches Ok(v) && v@ == xs,
            Err(e) => res == Err::<Vec<Expression>, QueryError>(e),
        },
{
    let ghost all = es@;
    let mut rest = es;
    let n: usize = rest.len();
    let mut out: Vec<Expression> = Vec::new();
    let mut i: usize = 0;
    while rest.len() > 0
        invariant
            i + rest@.len() == n,
            n == all.len(),
            all == es@,
            rest@ == all.skip(i as int),
            exprs_of(all, i as int) == Ok::<Seq<Expression>, QueryError>(out@),
        decreases rest@.len(),
    {
        let e = rest.remove(0);
        assert(e == all[i as int]);
        assert(rest@ =~= all.skip(i as int + 1));
        match convert_expr(e) {
            Err(err) => {
                proof {
                    lemma_exprs_err_sticks(all, i as int + 1, n as int);
                }
                return Err(err);
            },
            Ok(x) => out.push(x),
        }
        i = i + 1;
    }
    Ok(out)
}

fn convert_opt_expr(e: Option<RawExpr>) -> (res: Result<Option<Expression>, QueryError>)
    ensures
        res == opt_expr_of(e),
{
    match e {
        None => Ok(None),
        Some(x) => {
            let v = convert_expr(x)?;
            Ok(Some(v))
        },
    }
}

pub fn convert_select(s: RawSelect) -> (res: Result<SelectStatement, QueryError>)
    ensures
        select_converted(s, res),
{
    let RawSelect { from, projection, selection } = s;
    if from.len() != 1 {
        return Err(QueryError::UnsupportedQuery("only one FROM table group is supported"));
    }
    let projection = convert_select_items(projection)?;
    let where_clause = convert_opt_expr(selection)?;
    let mut from = from;
    let group = from.pop().unwrap();
    let table = convert_table_with_joins(group)?;
    Ok(SelectStatement { table, projection, where_clause })
}

// ---------------------------------------------------------------------
// INSERT, UPDATE, DELETE
// ---------------------------------------------------------------------

/// The rows of a VALUES list, the first `n` of them; the first error, in
/// row-major order, is the outcome.
pub open spec fn value_rows_of(rows: Seq<Vec<RawExpr>>, n: int) -> Result<Seq<Seq<Expression>>, QueryError>
    decreases n,
{
    if n <= 0 {
        Ok(Seq::empty())
    } else {
        match value_rows_of(rows, n - 1) {
            Err(e) => Err(e),
            Ok(prev) => match exprs_of(rows[n - 1]@, rows[n - 1]@.len() as int) {
                Err(e) => Err(e),
                Ok(xs) => Ok(prev.push(xs)),
            },
        }
    }
}

/// The names of a list, as written.
pub open spec fn names_of(names: Seq<RawObjectName>) -> Seq<String> {
    names.map_values(|n: RawObjectName| n.text)
}

/// Why an INSERT is refused, if it is: it needs a source, which is a VALUES
/// list or a SELECT, read first; then its target must be a table name.
pub open spec fn insert_error(ins: RawInsert) -> Option<QueryError> {
    match ins.source {
        None => Some(QueryError::UnsupportedStatement("INSERT must use a source")),
        Some(src) => {
            let source_error = match src {
                RawSetExpr::Values(rows) => match value_rows_of(rows@, rows@.len() as int) {
                    Err(e) => Some(e),
                    Ok(_) => None,
                },
                RawSetExpr::Select(sel) => select_error(sel),
                RawSetExpr::Other => Some(QueryError::UnsupportedStatement("only VALUES and SELECT inserts are supported")),
            };
            if source_error is Some {
                source_error
            } else if ins.table is None {
                Some(QueryError::UnsupportedStatement("INSERT target must be a table name"))
            } else {
                None
            }
        },
    }
}

/// What an accepted INSERT becomes: an empty column list is no list.
pub open spec fn insert_is(ins: RawInsert, st: InsertStatement) -> bool {
    &&& ins.table matches Some(t) && st.table_name == t.text
    &&& if ins.columns@.len() == 0 {
        st.columns is None
    } else {
        st.columns matches Some(cs) && cs@ == names_of(ins.columns@)
    }
    &&& match ins.source {
        Some(RawSetExpr::Values(rows)) => st.source matches InsertSource::Values(v)
            && value_rows_of(rows@, rows@.len() as int) == Ok::<Seq<Seq<Expression>>, QueryError>(v@.map_values(|r: Vec<Expression>| r@)),
        Some(RawSetExpr::Select(sel)) => st.source matches InsertSource::Select(ss) && select_is(sel, ss),
        _ => false,
    }
}

/// The name of the one table a statement targets: no joins, and a base
/// table.
pub open spec fn target_name_of(t: RawTableWithJoins) -> Result<String, QueryError> {
    if t.joins@.len() > 0 {
        Err(QueryError::UnsupportedStatement("joins are not supported yet"))
    } else {
        match t.relation {
            RawTableFactor::Table { name, .. } => Ok(name.text),
            RawTableFactor::Other => Err(QueryError::UnsupportedStatement("statement target must be a base table")),
        }
    }
}

/// A name of one part that is an identifier.
pub open spec fn simple_name(n: RawObjectName) -> Option<String> {
    if n.parts@.len() == 1 { n.parts@[0] } else { None }
}

pub open spec fn assignment_of(a: RawAssignment) -> Result<(String, Expression), QueryError> {
    match a {
        RawAssignment::Column(name, value) => match simple_name(name) {
            None => Err(QueryError::UnsupportedStatement("qualified UPDATE targets are not supported")),
            Some(column) => match expr_of(value) {
                Err(e) => Err(e),
                Ok(x) => Ok((column, x)),
            },
        },
        RawAssignment::Other => Err(QueryError::UnsupportedStatement("UPDATE tuple assignments are not supported")),
    }
}

pub open spec fn assignments_of(asgs: Seq<RawAssignment>, n: int) -> Result<Seq<(String, Expression)>, QueryError>
    decreases n,
{
    if n <= 0 {
        Ok(Seq::empty())
    } else {
        match assignments_of(asgs, n - 1) {
            Err(e) => Err(e),
            Ok(prev) => match assignment_of(asgs[n - 1]) {
                Err(e) => Err(e),
                Ok(x) => Ok(prev.push(x)),
            },
        }
    }
}

/// Why an UPDATE is refused, if it is: no optimizer hints, no clause
/// beyond SET and WHERE, one target table; then the assignments and the
/// WHERE clause are read.
pub open spec fn update_error(u: RawUpdate) -> Option<QueryError> {
    if u.optimizer_hints {
        Some(QueryError::UnsupportedStatement("UPDATE optimizer hints are not supported"))
    } else if u.from || u.returning || u.output || u.or || u.order_by || u.limit {
        Some(QueryError::UnsupportedStatement("only simple UPDATE statements are supported"))
    } else {
        match target_name_of(u.table) {
            Err(e) => Some(e),
            Ok(_) => match assignments_of(u.assignments@, u.assignments@.len() as int) {
                Err(e) => Some(e),
                Ok(_) => match opt_expr_of(u.selection) {
                    Err(e) => Some(e),
                    Ok(_) => None,
                },
            },
        }
    }
}

pub open spec fn update_is(u: RawUpdate, st: UpdateStatement) -> bool {
    &&& target_name_of(u.table) == Ok::<String, QueryError>(st.table_name)
    &&& assignments_of(u.assignments@, u.assignments@.len() as int) == Ok::<Seq<(String, Expression)>, QueryError>(st.assignments@)
    &&& opt_expr_of(u.selection) == Ok::<Option<Expression>, QueryError>(st.where_clause)
}

/// What a DELETE becomes: no optimizer hints, no clause beyond FROM and
/// WHERE, exactly one table after FROM.
pub open spec fn delete_of(d: RawDelete) -> Result<DeleteStatement, QueryError> {
    if d.optimizer_hints {
        Err(QueryError::UnsupportedStatement("DELETE optimizer hints are not supported"))
    } else if d.tables || d.using || d.returning || d.output || d.order_by || d.limit {
        Err(QueryError::UnsupportedStatement("only simple DELETE statements are supported"))
    } else {
        match d.from {
            RawFromTable::WithoutKeyword => Err(QueryError::UnsupportedStatement("DELETE must use a FROM clause")),
            RawFromTable::WithFromKeyword(ts) => if ts@.len() != 1 {
                Err(QueryError::UnsupportedStatement("DELETE must target exactly one table"))
            } else {
                match target_name_of(ts@[0]) {
                    Err(e) => Err(e),
                    Ok(table_name) => match opt_expr_of(d.selection) {
                        Err(e) => Err(e),
                        Ok(where_clause) => Ok(DeleteStatement { table_name, where_clause }),
                    },
                }
            },
        }
    }
}

proof fn lemma_value_rows_err_sticks(rows: Seq<Vec<RawExpr>>, k: int, n: int)
    requires
        0 <= k <= n,
        value_rows_of(rows, k) is Err,
    ensures
        value_rows_of(rows, n) == value_rows_of(rows, k),
    decreases n - k,
{
    if k < n {
        lemma_value_rows_err_sticks(rows, k, n - 1);
    }
}

proof fn lemma_assignments_err_sticks(asgs: Seq<RawAssignment>, k: int, n: int)
    requires
        0 <= k <= n,
        assignments_of(asgs, k) is Err,
    ensures
        assignments_of(asgs, n) == assignments_of(asgs, k),
    decreases n - k,
{
    if k < n {
        lemma_assignments_err_sticks(asgs, k, n - 1);
    }
}

fn convert_value_rows(rows: Vec<Vec<RawExpr>>) -> (res: Result<Vec<Vec<Expression>>, QueryError>)
    ensures
        match value_rows_of(rows@, rows@.len() as int) {
            Ok(xs) => res matches Ok(v) && v@.map_values(|r: Vec<Expression>| r@) == xs,
            Err(e) => res == Err::<Vec<Vec<Expression>>, QueryError>(e),
        },
{
    let ghost all = rows@;
    let mut rest = rows;
    let n: usize = rest.len();
    let mut out: Vec<Vec<Expression>> = Vec::new();
    assert(out@.map_values(|r: Vec<Expression>| r@) =~= Seq::<Seq<Expression>>::empty());
    let mut i: usize = 0;
    while rest.len() > 0
        invariant
            i + rest@.len() == n,
            n == all.len(),
            all == rows@,
            rest@ == all.skip(i as int),
            value_rows_of(all, i as int) == Ok::<Seq<Seq<Expression>>, QueryError>(out@.map_values(|r: Vec<Expression>| r@)),
        decreases rest@.len(),
    {
        let row = rest.remove(0);
        assert(row == all[i as int]);
        assert(rest@ =~= all.skip(i as int + 1));
        match convert_exprs(row) {
            Err(e) => {
                proof {
                    lemma_value_rows_err_sticks(all, i as int + 1, n as int);
                }
                return Err(e);
            },
            Ok(x) => {
                let ghost before = out@;
                out.push(x);
                assert(out@.map_values(|r: Vec<Expression>| r@) =~= before.map_values(|r: Vec<Expression>| r@).push(x@));
            },
        }
        i = i + 1;
    }
    Ok(out)
}

fn convert_names(names: Vec<RawObjectName>) -> (res: Vec<String>)
    ensures
        res@ == names_of(names@),
{
    let ghost all = names@;
    let mut rest = names;
    let n: usize = rest.len();
    let mut out: Vec<String> = Vec::new();
    let mut i: usize = 0;
    while rest.len() > 0
        invariant
            i + rest@.len() == n,
            n == all.len(),
            rest@ == all.skip(i as int),
            out@ == names_of(all.take(i as int)),
        decreases rest@.len(),
    {
        let name = rest.remove(0);
        assert(name == all[i as int]);
        assert(rest@ =~= all.skip(i as int + 1));
        out.push(name.text);
        i = i + 1;
        assert(out@ =~= names_of(all.take(i as int)));
    }
    assert(all.take(n as int) =~= all);
    out
}

pub fn convert_insert(ins: RawInsert) -> (res: Result<InsertStatement, QueryError>)
    ensures
        match insert_error(ins) {
            Some(e) => res == Err::<InsertStatement, QueryError>(e),
            None => res matches Ok(st) && insert_is(ins, st),
        },
{
    let RawInsert { source, table, columns } = ins;
    let source = match source {
        None => return Err(QueryError::UnsupportedStatement("INSERT must use a source")),
        Some(RawSetExpr::Values(rows)) => InsertSource::Values(convert_value_rows(rows)?),
        Some(RawSetExpr::Select(sel)) => InsertSource::Select(convert_select(sel)?),
        Some(RawSetExpr::Other) => return Err(QueryError::UnsupportedStatement("only VALUES and SELECT inserts are supported")),
    };
    let table_name = match table {
        None => return Err(QueryError::UnsupportedStatement("INSERT target must be a table name")),
        Some(t) => t.text,
    };
    let columns = if columns.len() == 0 { None } else { Some(convert_names(columns)) };
    Ok(InsertStatement { table_name, columns, source })
}

fn convert_target_name(t: RawTableWithJoins) -> (res: Result<String, QueryError>)
    ensures
        res == target_name_of(t),
{
    if t.joins.len() > 0 {
        return Err(QueryError::UnsupportedStatement("joins are not supported yet"));
    }
    match t.relation {
        RawTableFactor::Table { name, .. } => Ok(name.text),
        RawTableFactor::Other => Err(QueryError::UnsupportedStatement("statement target must be a base table")),
    }
}

fn convert_assignment(a: RawAssignment) -> (res: Result<(String, Expression), QueryError>)
    ensures
        res == assignment_of(a),
{
    match a {
        RawAssignment::Column(name, value) => {
            let mut parts = name.parts;
            if parts.len() != 1 {
                return Err(QueryError::UnsupportedStatement("qualified UPDATE targets are not supported"));
            }
            let column = match parts.pop().unwrap() {
                None => return Err(QueryError::UnsupportedStatement("qualified UPDATE targets are not supported")),
                Some(c) => c,
            };
            let x = convert_expr(value)?;
            Ok((column, x))
        },
        RawAssignment::Other => Err(QueryError::UnsupportedStatement("UPDATE tuple assignments are not supported")),
    }
}

fn convert_assignments(asgs: Vec<RawAssignment>) -> (res: Result<Vec<(String, Expression)>, QueryError>)
    ensures
        match assignments_of(asgs@, asgs@.len() as int) {
            Ok(xs) => res matches Ok(v) && v@ == xs,
            Err(e) => res == Err::<Vec<(String, Expression)>, QueryError>(e),
        },
{
    let ghost all = asgs@;
    let mut rest = asgs;
    let n: usize = rest.len();
    let mut out: Vec<(String, Expression)> = Vec::new();
    let mut i: usize = 0;
    while rest.len() > 0
        invariant
            i + rest@.len() == n,
            n == all.len(),
            all == asgs@,
            rest@ == all.skip(i as int),
            assignments_of(all, i as int) == Ok::<Seq<(String, Expression)>, QueryError>(out@),
        decreases rest@.len(),
    {
        let a = rest.remove(0);
        assert(a == all[i as int]);
        assert(rest@ =~= all.skip(i as int + 1));
        match convert_assignment(a) {
            Err(e) => {
                proof {
                    lemma_assignments_err_sticks(all, i as int + 1, n as int);
                }
                return Err(e);
            },
            Ok(x) => out.push(x),
        }
        i = i + 1;
    }
    Ok(out)
}

pub fn convert_update(u: RawUpdate) -> (res: Result<UpdateStatement, QueryError>)
    ensures
        match update_error(u) {
            Some(e) => res == Err::<UpdateStatement, QueryError>(e),
            None => res matches Ok(st) && update_is(u, st),
        },
{
    let RawUpdate { optimizer_hints, from, returning, output, or, order_by, limit, table, assignments, selection } = u;
    if optimizer_hints {
        return Err(QueryError::UnsupportedStatement("UPDATE optimizer hints are not supported"));
    }
    if from || returning || output || or || order_by || limit {
        return Err(QueryError::UnsupportedStatement("only simple UPDATE statements are supported"));
    }
    let table_name = convert_target_name(table)?;
    let assignments = convert_assignments(assignments)?;
    let where_clause = convert_opt_expr(selection)?;
    Ok(UpdateStatement { table_name, assignments, where_clause })
}

pub fn convert_delete(d: RawDelete) -> (res: Result<DeleteStatement, QueryError>)
    ensures
        res == delete_of(d),
{
    let RawDelete { optimizer_hints, tables, using, returning, output, order_by, limit, from, selection } = d;
    if optimizer_hints {
        return Err(QueryError::UnsupportedStatement("DELETE optimizer hints are not supported"));
    }
    if tables || using || returning || output || order_by || limit {
        return Err(QueryError::UnsupportedStatement("only simple DELETE statements are supported"));
    }
    let mut ts = match from {
        RawFromTable::WithoutKeyword => return Err(QueryError::UnsupportedStatement("DELETE must use a FROM clause")),
        RawFromTable::WithFromKeyword(ts) => ts,
    };
    if ts.len() != 1 {
        return Err(QueryError::UnsupportedStatement("DELETE must target exactly one table"));
    }
    let t = ts.pop().unwrap();
    let table_name = convert_target_name(t)?;
    let where_clause = convert_opt_expr(selection)?;
    Ok(DeleteStatement { table_name, where_clause })
}

// ---------------------------------------------------------------------
// CREATE TABLE
// ---------------------------------------------------------------------

/// The type of a column: VARCHAR needs a length.
pub open spec fn data_type_of(t: RawDataType) -> Result<(SqlType, Option<usize>), QueryError> {
    match t {
        RawDataType::Boolean => Ok((SqlType::Boolean, None)),
        RawDataType::SmallInt => Ok((SqlType::SmallInt, None)),
        RawDataType::Int => Ok((SqlType::Integer, None)),
        RawDataType::Integer => Ok((SqlType::Integer, None)),
        RawDataType::BigInt => Ok((SqlType::BigInt, None)),
        RawDataType::Double => Ok((SqlType::Decimal, None)),
        RawDataType::Varchar(Some(len)) => Ok((SqlType::Varchar, Some(len as usize))),
        RawDataType::Varchar(None) => Err(QueryError::VarcharMissingSize),
        RawDataType::Other(text) => Err(QueryError::UnsupportedDataType(text)),
    }
}

/// Whether a column declares itself the primary key, among its first `n`
/// options; any option but PRIMARY KEY is refused.
pub open spec fn column_pk_of(opts: Seq<RawColumnOption>, n: int) -> Result<bool, QueryError>
    decreases n,
{
    if n <= 0 {
        Ok(false)
    } else {
        match column_pk_of(opts, n - 1) {
            Err(e) => Err(e),
            Ok(has) => match opts[n - 1] {
                RawColumnOption::PrimaryKey => Ok(true),
                RawColumnOption::Other => Err(QueryError::UnsupportedStatement("only PRIMARY KEY column constraints are supported in CREATE TABLE")),
            },
        }
    }
}

/// The first `n` columns, with the primary key they declare: each column's
/// options, then the primary key declared so far (at most one), then its
/// type.
pub open spec fn columns_of(cols: Seq<RawColumnDef>, n: int) -> Result<(Seq<CreateColumn>, Seq<String>), QueryError>
    decreases n,
{
    if n <= 0 {
        Ok((Seq::empty(), Seq::empty()))
    } else {
        match columns_of(cols, n - 1) {
            Err(e) => Err(e),
            Ok((cs, pk)) => {
                let c = cols[n - 1];
                match column_pk_of(c.options@, c.options@.len() as int) {
                    Err(e) => Err(e),
                    Ok(has) => if has && pk.len() > 0 {
                        Err(QueryError::UnsupportedStatement("multiple PRIMARY KEY declarations are not supported"))
                    } else {
                        match data_type_of(c.data_type) {
                            Err(e) => Err(e),
                            Ok((sql_type, size)) => Ok((
                                cs.push(CreateColumn { name: c.name, sql_type, size }),
                                if has { pk.push(c.name) } else { pk },
                            )),
                        }
                    },
                }
            },
        }
    }
}

pub open spec fn index_column_of(c: RawIndexColumn) -> Result<String, QueryError> {
    match c {
        RawIndexColumn::Identifier(s) => Ok(s),
        RawIndexColumn::Other => Err(QueryError::UnsupportedStatement("PRIMARY KEY columns must be simple identifiers")),
    }
}

pub open spec fn index_columns_of(cs: Seq<RawIndexColumn>, n: int) -> Result<Seq<String>, QueryError>
    decreases n,
{
    if n <= 0 {
        Ok(Seq::empty())
    } else {
        match index_columns_of(cs, n - 1) {
            Err(e) => Err(e),
            Ok(prev) => match index_column_of(cs[n - 1]) {
                Err(e) => Err(e),
                Ok(x) => Ok(prev.push(x)),
            },
        }
    }
}

/// The primary key after the first `n` table constraints, starting from
/// the one the columns declare: only PRIMARY KEY constraints, and only
/// where no primary key is declared yet.
pub open spec fn pk_of(cs: Seq<RawTableConstraint>, n: int, pk0: Seq<String>) -> Result<Seq<String>, QueryError>
    decreases n,
{
    if n <= 0 {
        Ok(pk0)
    } else {
        match pk_of(cs, n - 1, pk0) {
            Err(e) => Err(e),
            Ok(pk) => match cs[n - 1] {
                RawTableConstraint::Other => Err(QueryError::UnsupportedStatement("only PRIMARY KEY constraints are supported in CREATE TABLE")),
                RawTableConstraint::PrimaryKey(cols) => if pk.len() > 0 {
                    Err(QueryError::UnsupportedStatement("multiple PRIMARY KEY declarations are not supported"))
                } else {
                    index_columns_of(cols@, cols@.len() as int)
                },
            },
        }
    }
}

/// Why a CREATE TABLE is refused, if it is.
pub open spec fn create_table_error(c: RawCreateTable) -> Option<QueryError> {
    match columns_of(c.columns@, c.columns@.len() as int) {
        Err(e) => Some(e),
        Ok((_, pk)) => match pk_of(c.constraints@, c.constraints@.len() as int, pk) {
            Err(e) => Some(e),
            Ok(_) => None,
        },
    }
}

/// What an accepted CREATE TABLE becomes.
pub open spec fn create_table_is(c: RawCreateTable, st: CreateTableStatement) -> bool {
    &&& st.table_name == c.name.text
    &&& columns_of(c.columns@, c.columns@.len() as int) matches Ok((cols, pk))
    &&& st.columns@ == cols
    &&& pk_of(c.constraints@, c.constraints@.len() as int, pk) == Ok::<Seq<String>, QueryError>(st.primary_key@)
}

proof fn lemma_column_pk_err_sticks(opts: Seq<RawColumnOption>, k: int, n: int)
    requires
        0 <= k <= n,
        column_pk_of(opts, k) is Err,
    ensures
        column_pk_of(opts, n) == column_pk_of(opts, k),
    decreases n - k,
{
    if k < n {
        lemma_column_pk_err_sticks(opts, k, n - 1);
    }
}

proof fn lemma_columns_err_sticks(cols: Seq<RawColumnDef>, k: int, n: int)
    requires
        0 <= k <= n,
        columns_of(cols, k) is Err,
    ensures
        columns_of(cols, n) == columns_of(cols, k),
    decreases n - k,
{
    if k < n {
        lemma_columns_err_sticks(cols, k, n - 1);
    }
}

proof fn lemma_index_columns_err_sticks(cs: Seq<RawIndexColumn>, k: int, n: int)
    requires
        0 <= k <= n,
        index_columns_of(cs, k) is Err,
    ensures
        index_columns_of(cs, n) == index_columns_of(cs, k),
    decreases n - k,
{
    if k < n {
        lemma_index_columns_err_sticks(cs, k, n - 1);
    }
}

proof fn lemma_pk_err_sticks(cs: Seq<RawTableConstraint>, k: int, n: int, pk0: Seq<String>)
    requires
        0 <= k <= n,
        pk_of(cs, k, pk0) is Err,
    ensures
        pk_of(cs, n, pk0) == pk_of(cs, k, pk0),
    decreases n - k,
{
    if k < n {
        lemma_pk_err_sticks(cs, k, n - 1, pk0);
    }
}

pub fn convert_data_type(t: RawDataType) -> (res: Result<(SqlType, Option<usize>), QueryError>)
    ensures
        res == data_type_of(t),
{
    match t {
        RawDataType::Boolean => Ok((SqlType::Boolean, None)),
        RawDataType::SmallInt => Ok((SqlType::SmallInt, None)),
        RawDataType::Int => Ok((SqlType::Integer, None)),
        RawDataType::Integer => Ok((SqlType::Integer, None)),
        RawDataType::BigInt => Ok((SqlType::BigInt, None)),
        RawDataType::Double => Ok((SqlType::Decimal, None)),
        RawDataType::Varchar(Some(len)) => Ok((SqlType::Varchar, Some(len as usize))),
        RawDataType::Varchar(None) => Err(QueryError::VarcharMissingSize),
        RawDataType::Other(text) => Err(QueryError::UnsupportedDataType(text)),
    }
}

/// Whether a column declares itself the primary key.
fn column_has_primary_key(opts: &Vec<RawColumnOption>) -> (res: Result<bool, QueryError>)
    ensures
        res == column_pk_of(opts@, opts@.len() as int),
{
    let mut has = false;
    let mut i: usize = 0;
    while i < opts.len()
        invariant
            i <= opts@.len(),
            column_pk_of(opts@, i as int) == Ok::<bool, QueryError>(has),
        decreases opts@.len() - i,
    {
        match opts[i] {
            RawColumnOption::PrimaryKey => {
                has = true;
            },
            RawColumnOption::Other => {
                proof {
                    lemma_column_pk_err_sticks(opts@, i as int + 1, opts@.len() as int);
                }
                return Err(QueryError::UnsupportedStatement("only PRIMARY KEY column constraints are supported in CREATE TABLE"));
            },
        }
        i = i + 1;
    }
    Ok(has)
}

fn convert_index_columns(cs: Vec<RawIndexColumn>) -> (res: Result<Vec<String>, QueryError>)
    ensures
        match index_columns_of(cs@, cs@.len() as int) {
            Ok(xs) => res matches Ok(v) && v@ == xs,
            Err(e) => res == Err::<Vec<String>, QueryError>(e),
        },
{
    let ghost all = cs@;
    let mut rest = cs;
    let n: usize = rest.len();
    let mut out: Vec<String> = Vec::new();
    let mut i: usize = 0;
    while rest.len() > 0
        invariant
            i + rest@.len() == n,
            n == all.len(),
            all == cs@,
            rest@ == all.skip(i as int),
            index_columns_of(all, i as int) == Ok::<Seq<String>, QueryError>(out@),
        decreases rest@.len(),
    {
        let c = rest.remove(0);
        assert(c == all[i as int]);
        assert(rest@ =~= all.skip(i as int + 1));
        match c {
            RawIndexColumn::Identifier(s) => out.push(s),
            RawIndexColumn::Other => {
                proof {
                    lemma_index_columns_err_sticks(all, i as int + 1, n as int);
                }
                return Err(QueryError::UnsupportedStatement("PRIMARY KEY columns must be simple identifiers"));
            },
        }
        i = i + 1;
    }
    Ok(out)
}

pub fn convert_create_table(c: RawCreateTable) -> (res: Result<CreateTableStatement, QueryError>)
    ensures
        match create_table_error(c) {
            Some(e) => res == Err::<CreateTableStatement, QueryError>(e),
            None => res matches Ok(st) && create_table_is(c, st),
        },
{
    let ghost cols0 = c.columns@;
    let ghost cons0 = c.constraints@;
    let ghost goal_err = create_table_error(c);
    let RawCreateTable { name, columns, constraints } = c;
    let mut primary_key: Vec<String> = Vec::new();
    let mut out: Vec<CreateColumn> = Vec::new();
    let mut rest = columns;
    let n: usize = rest.len();
    let mut i: usize = 0;
    while rest.len() > 0
        invariant
            i + rest@.len() == n,
            n == cols0.len(),
            cols0 == c.columns@,
            cons0 == c.constraints@,
            name == c.name,
            rest@ == cols0.skip(i as int),
            columns_of(cols0, i as int) == Ok::<(Seq<CreateColumn>, Seq<String>), QueryError>((out@, primary_key@)),
        decreases rest@.len(),
    {
        let col = rest.remove(0);
        assert(col == cols0[i as int]);
        assert(rest@ =~= cols0.skip(i as int + 1));
        let has = match column_has_primary_key(&col.options) {
            Err(e) => {
                proof {
                    lemma_columns_err_sticks(cols0, i as int + 1, n as int);
                }
                return Err(e);
            },
            Ok(has) => has,
        };
        if has && primary_key.len() > 0 {
            proof {
                lemma_columns_err_sticks(cols0, i as int + 1, n as int);
            }
            return Err(QueryError::UnsupportedStatement("multiple PRIMARY KEY declarations are not supported"));
        }
        let RawColumnDef { name: column_name, data_type, options: _ } = col;
        if has {
            primary_key.push(column_name.clone());
        }
        match convert_data_type(data_type) {
            Err(e) => {
                proof {
                    lemma_columns_err_sticks(cols0, i as int + 1, n as int);
                }
                return Err(e);
            },
            Ok((sql_type, size)) => {
                out.push(CreateColumn { name: column_name, sql_type, size });
            },
        }
        i = i + 1;
    }
    let ghost pk0 = primary_key@;
    assert(cols0.skip(n as int) =~= Seq::<RawColumnDef>::empty());
    let mut rest = constraints;
    let m: usize = rest.len();
    let mut j: usize = 0;
    while rest.len() > 0
        invariant
            j + rest@.len() == m,
            m == cons0.len(),
            cols0 == c.columns@,
            cons0 == c.constraints@,
            name == c.name,
            columns_of(cols0, cols0.len() as int) == Ok::<(Seq<CreateColumn>, Seq<String>), QueryError>((out@, pk0)),
            rest@ == cons0.skip(j as int),
            pk_of(cons0, j as int, pk0) == Ok::<Seq<String>, QueryError>(primary_key@),
        decreases rest@.len(),
    {
        let con = rest.remove(0);
        assert(con == cons0[j as int]);
        assert(rest@ =~= cons0.skip(j as int + 1));
        match con {
            RawTableConstraint::Other => {
                proof {
                    lemma_pk_err_sticks(cons0, j as int + 1, m as int, pk0);
                }
                return Err(QueryError::UnsupportedStatement("only PRIMARY KEY constraints are supported in CREATE TABLE"));
            },
            RawTableConstraint::PrimaryKey(cols) => {
                if primary_key.len() > 0 {
                    proof {
                        lemma_pk_err_sticks(cons0, j as int + 1, m as int, pk0);
                    }
                    return Err(QueryError::UnsupportedStatement("multiple PRIMARY KEY declarations are not supported"));
                }
                match convert_index_columns(cols) {
                    Err(e) => {
                        proof {
                            lemma_pk_err_sticks(cons0, j as int + 1, m as int, pk0);
                        }
                        return Err(e);
                    },
                    Ok(pk) => {
                        primary_key = pk;
                    },
                }
            },
        }
        j = j + 1;
    }
    Ok(CreateTableStatement { table_name: name.text, columns: out, primary_key })
}

// ---------------------------------------------------------------------
// Statements
// ---------------------------------------------------------------------

/// What a statement of the syntax tree becomes: a SELECT, INSERT, UPDATE,
/// DELETE or CREATE TABLE, as the functions above say; nothing else.
pub open spec fn statement_converted(raw: RawStatement, res: Result<Statement, QueryError>) -> bool {
    match raw {
        RawStatement::Query(RawSetExpr::Select(s)) => match select_error(s) {
            Some(e) => res == Err::<Statement, QueryError>(e),
            None => res matches Ok(Statement::Select(st)) && select_is(s, st),
        },
        RawStatement::Query(_) => res == Err::<Statement, QueryError>(QueryError::UnsupportedQuery("only SELECT queries are supported")),
        RawStatement::Insert(ins) => match insert_error(ins) {
            Some(e) => res == Err::<Statement, QueryError>(e),
            None => res matches Ok(Statement::Insert(st)) && insert_is(ins, st),
        },
        RawStatement::Update(u) => match update_error(u) {
            Some(e) => res == Err::<Statement, QueryError>(e),
            None => res matches Ok(Statement::Update(st)) && update_is(u, st),
        },
        RawStatement::Delete(d) => match delete_of(d) {
            Err(e) => res == Err::<Statement, QueryError>(e),
            Ok(st) => res == Ok::<Statement, QueryError>(Statement::Delete(st)),
        },
        RawStatement::CreateTable(c) => match create_table_error(c) {
            Some(e) => res == Err::<Statement, QueryError>(e),
            None => res matches Ok(Statement::CreateTable(st)) && create_table_is(c, st),
        },
        RawStatement::Other => res == Err::<Statement, QueryError>(
            QueryError::UnsupportedStatement("only SELECT, INSERT, UPDATE, DELETE, and CREATE TABLE are supported"),
        ),
    }
}

/// What a parse that gave `raws` becomes: exactly one statement is
/// expected.
pub open spec fn statements_converted(raws: Seq<RawStatement>, res: Result<Statement, QueryError>) -> bool {
    if raws.len() != 1 {
        res == Err::<Statement, QueryError>(QueryError::ExpectedSingleStatement)
    } else {
        statement_converted(raws[0], res)
    }
}

pub fn convert_statement(raw: RawStatement) -> (res: Result<Statement, QueryError>)
    ensures
        statement_converted(raw, res),
{
    match raw {
        RawStatement::Query(RawSetExpr::Select(s)) => Ok(Statement::Select(convert_select(s)?)),
        RawStatement::Query(_) => Err(QueryError::UnsupportedQuery("only SELECT queries are supported")),
        RawStatement::Insert(ins) => Ok(Statement::Insert(convert_insert(ins)?)),
        RawStatement::Update(u) => Ok(Statement::Update(convert_update(u)?)),
        RawStatement::Delete(d) => Ok(Statement::Delete(convert_delete(d)?)),
        RawStatement::CreateTable(c) => Ok(Statement::CreateTable(convert_create_table(c)?)),
        RawStatement::Other => Err(QueryError::UnsupportedStatement("only SELECT, INSERT, UPDATE, DELETE, and CREATE TABLE are supported")),
    }
}

/// The statement a parse gave, which must be exactly one.
pub fn convert_statements(raws: Vec<RawStatement>) -> (res: Result<Statement, QueryError>)
    ensures
        statements_converted(raws@, res),
{
    let mut raws = raws;
    if raws.len() != 1 {
        return Err(QueryError::ExpectedSingleStatement);
    }
    let raw = raws.pop().unwrap();
    convert_statement(raw)
}

/// What sqlparser reads from `sql` (PostgreSQL dialect), its syntax tree
/// copied into `RawStatement`s, or why it could not read it.
pub uninterp spec fn sql_syntax(sql: Seq<char>) -> Result<Seq<RawStatement>, SqlSyntaxError>;

/// Reads `sql` with sqlparser's `Parser::parse_sql` in the PostgreSQL
/// dialect and copies each statement of the tree into a `RawStatement`; the
/// contract claims only that the outcome is the one `sql_syntax` names for
/// this text, which sqlparser computes from the text alone.
#[verifier::external_body]
pub fn parse_syntax(sql: &str) -> (res: Result<Vec<RawStatement>, SqlSyntaxError>)
    ensures
        match res {
            Ok(raws) => sql_syntax(sql@) == Ok::<Seq<RawStatement>, SqlSyntaxError>(raws@),
            Err(e) => sql_syntax(sql@) == Err::<Seq<RawStatement>, SqlSyntaxError>(e),
        },
{
    let statements = Parser::parse_sql(&PostgreSqlDialect {}, sql).map_err(syntax_error)?;
    Ok(statements.into_iter().map(|statement| match statement {
        SqlStatement::Query(query) => RawStatement::Query(raw_query(*query)),
        SqlStatement::Insert(insert) => RawStatement::Insert(raw_insert(insert)),
        SqlStatement::Update(update) => RawStatement::Update(raw_update(update)),
        SqlStatement::Delete(delete) => RawStatement::Delete(raw_delete(delete)),
        SqlStatement::CreateTable(create) => RawStatement::CreateTable(raw_create_table(create)),
        _ => RawStatement::Other,
    }).collect())
}

/// Parses SQL text into a statement of the supported subset: the text must
/// read as exactly one statement, which the rules above then convert.
pub fn parse_sql(sql: &str) -> (res: Result<Statement, QueryError>)
    ensures
        match sql_syntax(sql@) {
            Err(e) => res == Err::<Statement, QueryError>(QueryError::Parse(e)),
            Ok(raws) => statements_converted(raws, res),
        },
{
    match parse_syntax(sql) {
        Err(e) => Err(QueryError::Parse(e)),
        Ok(raws) => convert_statements(raws),
    }
}

} // verus!
