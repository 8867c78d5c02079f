//! What planning means: laws that tie a planned expression to what the
//! SQL it was planned from says.

use vstd::prelude::*;
use crate::catalog::column::ColumnSize;
use crate::catalog::types::SqlType;
use crate::query::binder::expression::BoundExpression;
use crate::query::executor::error::ExecutionError;
use crate::query::executor::expression::eval;
use crate::query::expression::{BinaryOperator, UnaryOperator};
use crate::query::planner::transformer::plan_expr;
use crate::types::value::Value;

verus! {

/// What a SQL comparison operator says of two numbers; `None` for an
/// operator that is no comparison.
pub open spec fn sql_comparison(op: BinaryOperator, a: int, b: int) -> Option<bool> {
    match op {
        BinaryOperator::Eq => Some(a == b),
        BinaryOperator::NotEq => Some(a != b),
        BinaryOperator::Lt => Some(a < b),
        BinaryOperator::LtEq => Some(a <= b),
        BinaryOperator::Gt => Some(a > b),
        BinaryOperator::GtEq => Some(a >= b),
        _ => None,
    }
}

/// Planning keeps what a comparison means: where the planned operands of
/// `left op right` evaluate on a row to the integers `a` and `b`, the
/// planned comparison evaluates there to whether `a op b` holds, as SQL
/// reads the operator (`>=` is "at least", `<` "less than", and so on).
pub proof fn lemma_planned_comparison_means(
    left: BoundExpression,
    op: BinaryOperator,
    right: BoundExpression,
    children: Seq<Seq<(Seq<char>, SqlType, ColumnSize)>>,
    l: Seq<Value>,
    r: Seq<Value>,
    a: i32,
    b: i32,
)
    requires
        sql_comparison(op, a as int, b as int) is Some,
        plan_expr(left, children) is Ok,
        eval(plan_expr(left, children)->Ok_0.1, l, r) == Ok::<Value, ExecutionError>(Value::Integer(a)),
        plan_expr(right, children) is Ok,
        eval(plan_expr(right, children)->Ok_0.1, l, r) == Ok::<Value, ExecutionError>(Value::Integer(b)),
    ensures
        ({
            let e = BoundExpression::BinaryOp { left: Box::new(left), op, right: Box::new(right) };
            &&& plan_expr(e, children) is Ok
            &&& eval(plan_expr(e, children)->Ok_0.1, l, r)
                == Ok::<Value, ExecutionError>(Value::Boolean(sql_comparison(op, a as int, b as int)->Some_0))
        }),
{
}

/// Planning keeps what `+` and `-` mean: where the planned operands
/// evaluate to the integers `a` and `b` and the result is an integer, the
/// planned expression evaluates to `a + b` (`a - b`).
pub proof fn lemma_planned_arithmetic_means(
    left: BoundExpression,
    op: BinaryOperator,
    right: BoundExpression,
    children: Seq<Seq<(Seq<char>, SqlType, ColumnSize)>>,
    l: Seq<Value>,
    r: Seq<Value>,
    a: i32,
    b: i32,
)
    requires
        op == BinaryOperator::Plus || op == BinaryOperator::Minus,
        i32::MIN <= (if op == BinaryOperator::Plus { a + b } else { a - b }) <= i32::MAX,
        plan_expr(left, children) is Ok,
        eval(plan_expr(left, children)->Ok_0.1, l, r) == Ok::<Value, ExecutionError>(Value::Integer(a)),
        plan_expr(right, children) is Ok,
        eval(plan_expr(right, children)->Ok_0.1, l, r) == Ok::<Value, ExecutionError>(Value::Integer(b)),
    ensures
        ({
            let e = BoundExpression::BinaryOp { left: Box::new(left), op, right: Box::new(right) };
            &&& plan_expr(e, children) is Ok
            &&& eval(plan_expr(e, children)->Ok_0.1, l, r) == Ok::<Value, ExecutionError>(
                Value::Integer((if op == BinaryOperator::Plus { a + b } else { a - b }) as i32),
            )
        }),
{
}

/// Planning keeps what AND and OR mean: where the planned operands evaluate
/// to the truth values `a` and `b`, the planned expression evaluates to
/// `a && b` (`a || b`).
pub proof fn lemma_planned_logic_means(
    left: BoundExpression,
    op: BinaryOperator,
    right: BoundExpression,
    children: Seq<Seq<(Seq<char>, SqlType, ColumnSize)>>,
    l: Seq<Value>,
    r: Seq<Value>,
    a: bool,
    b: bool,
)
    requires
        op == BinaryOperator::And || op == BinaryOperator::Or,
        plan_expr(left, children) is Ok,
        eval(plan_expr(left, children)->Ok_0.1, l, r) == Ok::<Value, ExecutionError>(Value::Boolean(a)),
        plan_expr(right, children) is Ok,
        eval(plan_expr(right, children)->Ok_0.1, l, r) == Ok::<Value, ExecutionError>(Value::Boolean(b)),
    ensures
        ({
            let e = BoundExpression::BinaryOp { left: Box::new(left), op, right: Box::new(right) };
            &&& plan_expr(e, children) is Ok
            &&& eval(plan_expr(e, children)->Ok_0.1, l, r) == Ok::<Value, ExecutionError>(
                Value::Boolean(if op == BinaryOperator::And { a && b } else { a || b }),
            )
        }),
{
}

/// Planning keeps what the unary operators mean: NOT negates a truth value,
/// `-` an integer, and IS NULL / IS NOT NULL tell whether the value is NULL.
pub proof fn lemma_planned_unary_means(
    x: BoundExpression,
    op: UnaryOperator,
    children: Seq<Seq<(Seq<char>, SqlType, ColumnSize)>>,
    l: Seq<Value>,
    r: Seq<Value>,
    v: Value,
)
    requires
        plan_expr(x, children) is Ok,
        eval(plan_expr(x, children)->Ok_0.1, l, r) == Ok::<Value, ExecutionError>(v),
        op == UnaryOperator::Not ==> v is Boolean,
        op == UnaryOperator::Neg ==> v is Integer && v->Integer_0 != i32::MIN,
    ensures
        ({
            let e = BoundExpression::UnaryOp { expr: Box::new(x), op };
            &&& plan_expr(e, children) is Ok
            &&& eval(plan_expr(e, children)->Ok_0.1, l, r) == Ok::<Value, ExecutionError>(match op {
                UnaryOperator::Not => Value::Boolean(!v->Boolean_0),
                UnaryOperator::Neg => Value::Integer((-v->Integer_0) as i32),
                UnaryOperator::IsNull => Value::Boolean(v is Null),
                UnaryOperator::IsNotNull => Value::Boolean(!(v is Null)),
            })
        }),
{
}

} // verus!
