use vstd::prelude::*;
use crate::query::expression::Expression;

verus! {

/// A FROM clause as written in a SQL statement.
#[derive(Debug, PartialEq)]
pub enum TableRef {
    BaseTable { table_name: String, alias: Option<String> },
    Join {
        left: Box<TableRef>,
        right: Box<TableRef>,
        join_type: JoinType,
        condition: Option<Expression>,
    },
}

#[derive(Debug, Clone, Copy, PartialEq, Eq, Structural)]
pub enum JoinType {
    Inner,
    Left,
    Cross,
}

} // verus!
