use vstd::prelude::*;
use crate::catalog::column::{Column, ColumnSize, column_declared_size};
use crate::catalog::types::SqlType;
use crate::common::strings::{str_byte_len, utf8_len};
use crate::types::value::Value;

verus! {

/// The type an expression evaluates to; VARCHARs carry a maximum length.
#[derive(Debug, Clone, Copy, PartialEq, Eq)]
pub struct ExpressionType {
    pub sql_type: SqlType,
    pub varchar_size: Option<usize>,
}

impl ExpressionType {
    pub fn new_bool() -> (res: Self)
        ensures
            res == (ExpressionType { sql_type: SqlType::Boolean, varchar_size: None }),
    {
        ExpressionType { sql_type: SqlType::Boolean, varchar_size: None }
    }

    pub fn new_integer() -> (res: Self)
        ensures
            res == (ExpressionType { sql_type: SqlType::Integer, varchar_size: None }),
    {
        ExpressionType { sql_type: SqlType::Integer, varchar_size: None }
    }

    /// The type of the values of a column.
    pub fn from_column(column: &Column) -> (res: Self)
        ensures
            res == spec_type_of_column(*column),
    {
        ExpressionType {
            sql_type: column.sql_type(),
            varchar_size: if column.sql_type() == SqlType::Varchar {
                Some(column.declared_size())
            } else {
                None
            },
        }
    }

    /// The type of a constant: a VARCHAR's size is its byte length.
    pub fn from_value(value: &Value) -> (res: Self)
        ensures
            res == spec_type_of_value(*value),
    {
        ExpressionType {
            sql_type: value.sql_type(),
            varchar_size: match value {
                Value::Varchar(s) => Some(str_byte_len(s.as_str())),
                Value::Null(SqlType::Varchar) => Some(0),
                _ => None,
            },
        }
    }

    /// A column named `name` holding values of this type.
    pub fn to_column(self, name: String) -> (res: Column)
        ensures
            res == spec_column_of_type(self, name),
    {
        match self.sql_type {
            SqlType::Varchar => {
                let size = match self.varchar_size {
                    Some(s) => s,
                    None => 0,
                };
                Column::new_variable(name, SqlType::Varchar, size)
            },
            sql_type => Column::new_static(name, sql_type),
        }
    }
}

pub open spec fn spec_type_of_column(c: Column) -> ExpressionType {
    ExpressionType {
        sql_type: c.sql_type,
        varchar_size: if c.sql_type == SqlType::Varchar {
            Some(column_declared_size(c) as usize)
        } else {
            None
        },
    }
}

pub open spec fn spec_type_of_value(v: Value) -> ExpressionType {
    ExpressionType {
        sql_type: crate::types::value::value_type(v),
        varchar_size: match v {
            Value::Varchar(s) => Some(utf8_len(s@) as usize),
            Value::Null(SqlType::Varchar) => Some(0),
            _ => None,
        },
    }
}

pub open spec fn spec_column_of_type(t: ExpressionType, name: String) -> Column {
    match t.sql_type {
        SqlType::Varchar => Column {
            name,
            sql_type: SqlType::Varchar,
            value_offset: 0,
            size: ColumnSize::Variable(
                match t.varchar_size {
                    Some(s) => s,
                    None => 0,
                },
            ),
        },
        st => Column {
            name,
            sql_type: st,
            value_offset: 0,
            size: ColumnSize::Inline(crate::catalog::types::spec_inline_size(st) as usize),
        },
    }
}

/// An expression after planning: column references are positions in the
/// input rows, and every node knows its type.
#[derive(Debug, PartialEq)]
pub struct PlannedExpression {
    pub return_type: ExpressionType,
    pub kind: PlannedExpressionKind,
}

#[derive(Debug, PartialEq)]
pub enum PlannedExpressionKind {
    ColumnValue(ColumnValueExpression),
    ConstantValue(ConstantValueExpression),
    Comparison(ComparisonExpression),
    Arithmetic(ArithmeticExpression),
    Logic(LogicExpression),
    Not(NotExpression),
    Negate(NegateExpression),
    NullCheck(NullCheckExpression),
}

#[derive(Debug, Clone, Copy, PartialEq, Eq)]
pub struct ColumnValueExpression {
    /// which input row the column is from
    pub tuple_idx: usize,
    pub col_idx: usize,
}

#[derive(Debug, PartialEq)]
pub struct ConstantValueExpression {
    pub value: Value,
}

#[derive(Debug, Clone, Copy, PartialEq, Eq, Structural)]
pub enum ComparisonType {
    Eq,
    NotEq,
    LessThan,
    LessThanOrEqual,
    GreaterThan,
    GreaterThanOrEqual,
}

#[derive(Debug, Clone, Copy, PartialEq, Eq, Structural)]
pub enum ArithmeticType {
    Plus,
    Minus,
}

#[derive(Debug, Clone, Copy, PartialEq, Eq, Structural)]
pub enum LogicType {
    And,
    Or,
}

#[derive(Debug, Clone, Copy, PartialEq, Eq, Structural)]
pub enum NullCheckType {
    IsNull,
    IsNotNull,
}

#[derive(Debug, PartialEq)]
pub struct ComparisonExpression {
    pub left: Box<PlannedExpression>,
    pub comparison_type: ComparisonType,
    pub right: Box<PlannedExpression>,
}

#[derive(Debug, PartialEq)]
pub struct ArithmeticExpression {
    pub left: Box<PlannedExpression>,
    pub arithmetic_type: ArithmeticType,
    pub right: Box<PlannedExpression>,
}

#[derive(Debug, PartialEq)]
pub struct LogicExpression {
    pub left: Box<PlannedExpression>,
    pub logic_type: LogicType,
    pub right: Box<PlannedExpression>,
}

#[derive(Debug, PartialEq)]
pub struct NotExpression {
    pub expr: Box<PlannedExpression>,
}

#[derive(Debug, PartialEq)]
pub struct NegateExpression {
    pub expr: Box<PlannedExpression>,
}

#[derive(Debug, PartialEq)]
pub struct NullCheckExpression {
    pub expr: Box<PlannedExpression>,
    pub null_check_type: NullCheckType,
}

/// A copy of a planned expression.
pub fn clone_expr(e: &PlannedExpression) -> (res: PlannedExpression)
    ensures
        res == *e,
    decreases e,
{
    let kind = match &e.kind {
        PlannedExpressionKind::ColumnValue(c) => PlannedExpressionKind::ColumnValue(
            ColumnValueExpression { tuple_idx: c.tuple_idx, col_idx: c.col_idx },
        ),
        PlannedExpressionKind::ConstantValue(c) => PlannedExpressionKind::ConstantValue(
            ConstantValueExpression { value: c.value.clone() },
        ),
        PlannedExpressionKind::Comparison(c) => PlannedExpressionKind::Comparison(
            ComparisonExpression {
                left: Box::new(clone_expr(&c.left)),
                comparison_type: c.comparison_type,
                right: Box::new(clone_expr(&c.right)),
            },
        ),
        PlannedExpressionKind::Arithmetic(c) => PlannedExpressionKind::Arithmetic(
            ArithmeticExpression {
                left: Box::new(clone_expr(&c.left)),
                arithmetic_type: c.arithmetic_type,
                right: Box::new(clone_expr(&c.right)),
            },
        ),
        PlannedExpressionKind::Logic(c) => PlannedExpressionKind::Logic(
            LogicExpression {
                left: Box::new(clone_expr(&c.left)),
                logic_type: c.logic_type,
                right: Box::new(clone_expr(&c.right)),
            },
        ),
        PlannedExpressionKind::Not(c) => PlannedExpressionKind::Not(
            NotExpression { expr: Box::new(clone_expr(&c.expr)) },
        ),
        PlannedExpressionKind::Negate(c) => PlannedExpressionKind::Negate(
            NegateExpression { expr: Box::new(clone_expr(&c.expr)) },
        ),
        PlannedExpressionKind::NullCheck(c) => PlannedExpressionKind::NullCheck(
            NullCheckExpression { expr: Box::new(clone_expr(&c.expr)), null_check_type: c.null_check_type },
        ),
    };
    PlannedExpression { return_type: e.return_type, kind }
}

/// A copy of a list of planned expressions.
pub fn clone_exprs(v: &[PlannedExpression]) -> (res: Vec<PlannedExpression>)
    ensures
        res@ == v@,
{
    let mut res: Vec<PlannedExpression> = Vec::new();
    let mut i: usize = 0;
    while i < v.len()
        invariant
            i <= v@.len(),
            res@ == v@.subrange(0, i as int),
        decreases v@.len() - i,
    {
        res.push(clone_expr(&v[i]));
        i = i + 1;
    }
    res
}

impl Clone for PlannedExpression {
    fn clone(&self) -> (res: Self)
        ensures
            res == *self,
    {
        clone_expr(self)
    }
}

} // verus!
