use vstd::prelude::*;
use crate::types::value::Value;

verus! {

/// An expression as written in a SQL statement.
#[derive(Debug, PartialEq)]
pub enum Expression {
    Column(ParsedColumnRef),
    Literal(Value),
    UnaryOp { op: UnaryOperator, expr: Box<Expression> },
    BinaryOp { left: Box<Expression>, op: BinaryOperator, right: Box<Expression> },
}

#[derive(Debug, PartialEq, Eq)]
pub struct ParsedColumnRef {
    pub qualifier: Option<ColumnQualifier>,
    pub column: String,
}

#[derive(Debug, PartialEq, Eq)]
pub enum ColumnQualifier {
    Table { table: String },
    SchemaTable { schema: String, table: String },
}

#[derive(Debug, Clone, Copy, PartialEq, Eq, Structural)]
pub enum BinaryOperator {
    Plus,
    Minus,
    Eq,
    NotEq,
    Lt,
    LtEq,
    Gt,
    GtEq,
    And,
    Or,
}

#[derive(Debug, Clone, Copy, PartialEq, Eq, Structural)]
pub enum UnaryOperator {
    Not,
    Neg,
    IsNull,
    IsNotNull,
}

} // verus!
