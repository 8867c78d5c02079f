use vstd::prelude::*;
use crate::catalog::types::SqlType;
use crate::common::strings::{chars_lt, str_lt};
use crate::query::executor::error::ExecutionError;
use crate::query::planner::expression::{
    ArithmeticType, ComparisonType, LogicType, NullCheckType, PlannedExpression,
    PlannedExpressionKind,
};
use crate::query::planner::plan::PlannedOrderBy;
use crate::types::value::{Value, value_type};

verus! {

// ---------------------------------------------------------------------
// What evaluation means
// ---------------------------------------------------------------------

pub open spec fn is_numeric_type(t: SqlType) -> bool {
    t == SqlType::SmallInt || t == SqlType::Integer || t == SqlType::BigInt || t == SqlType::Decimal
}

/// The type two numeric operands are widened to.
pub open spec fn widened_type(a: SqlType, b: SqlType) -> SqlType {
    if a == SqlType::Decimal || b == SqlType::Decimal {
        SqlType::Decimal
    } else if a == SqlType::BigInt || b == SqlType::BigInt {
        SqlType::BigInt
    } else if a == SqlType::Integer || b == SqlType::Integer {
        SqlType::Integer
    } else {
        SqlType::SmallInt
    }
}

/// The integer held by a non-null integer value.
pub open spec fn int_of(v: Value) -> int {
    match v {
        Value::SmallInt(i) => i as int,
        Value::Integer(i) => i as int,
        Value::BigInt(i) => i as int,
        _ => 0,
    }
}

/// The value of integer type `t` holding `x`, or `NumericOutOfRange`.
pub open spec fn int_value(t: SqlType, x: int) -> Result<Value, ExecutionError> {
    match t {
        SqlType::SmallInt => if i16::MIN <= x <= i16::MAX {
            Ok(Value::SmallInt(x as i16))
        } else {
            Err(ExecutionError::NumericOutOfRange)
        },
        SqlType::Integer => if i32::MIN <= x <= i32::MAX {
            Ok(Value::Integer(x as i32))
        } else {
            Err(ExecutionError::NumericOutOfRange)
        },
        SqlType::BigInt => if i64::MIN <= x <= i64::MAX {
            Ok(Value::BigInt(x as i64))
        } else {
            Err(ExecutionError::NumericOutOfRange)
        },
        _ => Err(ExecutionError::NumericOutOfRange),
    }
}

/// Whether a comparison holds, given whether the left side is less than
/// and whether it is equal to the right side.
pub open spec fn compare_holds(ct: ComparisonType, lt: bool, eq: bool) -> bool {
    match ct {
        ComparisonType::Eq => eq,
        ComparisonType::NotEq => !eq,
        ComparisonType::LessThan => lt,
        ComparisonType::LessThanOrEqual => lt || eq,
        ComparisonType::GreaterThan => !lt && !eq,
        ComparisonType::GreaterThanOrEqual => !lt,
    }
}

/// Comparing two values: numbers by value (NULL if either is NULL), values
/// of the same type by their order (NULL if either is NULL), anything else
/// is a type mismatch.
pub open spec fn spec_compare(l: Value, r: Value, ct: ComparisonType) -> Result<Value, ExecutionError> {
    if is_numeric_type(value_type(l)) && is_numeric_type(value_type(r)) {
        if l is Null || r is Null {
            Ok(Value::Null(SqlType::Boolean))
        } else {
            Ok(Value::Boolean(compare_holds(ct, int_of(l) < int_of(r), int_of(l) == int_of(r))))
        }
    } else if l is Null || r is Null {
        if value_type(l) == value_type(r) {
            Ok(Value::Null(SqlType::Boolean))
        } else {
            Err(ExecutionError::ComparisonTypeMismatch(l, r))
        }
    } else {
        match (l, r) {
            (Value::Boolean(a), Value::Boolean(b)) => Ok(Value::Boolean(compare_holds(ct, !a && b, a == b))),
            (Value::Varchar(a), Value::Varchar(b)) => Ok(Value::Boolean(compare_holds(ct, chars_lt(a@, b@), a@ == b@))),
            _ => Err(ExecutionError::ComparisonTypeMismatch(l, r)),
        }
    }
}

/// Adding or subtracting: both sides must be numeric; NULL if either is
/// NULL; otherwise the exact result in the wider type, if it fits.
pub open spec fn spec_arith(at: ArithmeticType, l: Value, r: Value) -> Result<Value, ExecutionError> {
    if !is_numeric_type(value_type(l)) {
        Err(ExecutionError::ExpectedNumeric(l))
    } else if !is_numeric_type(value_type(r)) {
        Err(ExecutionError::ExpectedNumeric(r))
    } else if l is Null || r is Null {
        Ok(Value::Null(widened_type(value_type(l), value_type(r))))
    } else {
        int_value(
            widened_type(value_type(l), value_type(r)),
            match at {
                ArithmeticType::Plus => int_of(l) + int_of(r),
                ArithmeticType::Minus => int_of(l) - int_of(r),
            },
        )
    }
}

/// A value read as a truth value: `None` stands for NULL.
pub open spec fn spec_truth(v: Value) -> Result<Option<bool>, ExecutionError> {
    match v {
        Value::Boolean(b) => Ok(Some(b)),
        Value::Null(_) => Ok(None),
        _ => Err(ExecutionError::ExpectedBoolean(v)),
    }
}

pub open spec fn truth_value(t: Option<bool>) -> Value {
    match t {
        Some(b) => Value::Boolean(b),
        None => Value::Null(SqlType::Boolean),
    }
}

/// Three-valued AND: false wins, then NULL.
pub open spec fn spec_and(a: Option<bool>, b: Option<bool>) -> Option<bool> {
    if a == Some(false) || b == Some(false) {
        Some(false)
    } else if a == Some(true) && b == Some(true) {
        Some(true)
    } else {
        None
    }
}

/// Three-valued OR: true wins, then NULL.
pub open spec fn spec_or(a: Option<bool>, b: Option<bool>) -> Option<bool> {
    if a == Some(true) || b == Some(true) {
        Some(true)
    } else if a == Some(false) && b == Some(false) {
        Some(false)
    } else {
        None
    }
}

pub open spec fn spec_not(a: Option<bool>) -> Option<bool> {
    match a {
        Some(b) => Some(!b),
        None => None,
    }
}

/// Negation of an integer; NULLs of numeric type stay NULL.
pub open spec fn spec_negate(v: Value) -> Result<Value, ExecutionError> {
    match v {
        Value::SmallInt(_) | Value::Integer(_) | Value::BigInt(_) => int_value(value_type(v), -int_of(v)),
        Value::Null(t) => if is_numeric_type(t) {
            Ok(v)
        } else {
            Err(ExecutionError::ExpectedNumeric(v))
        },
        _ => Err(ExecutionError::ExpectedNumeric(v)),
    }
}

/// Every column reference of `e` names a column of one of the two input
/// rows (`tuple_idx` 0: the left row of `nl` values, 1: the right row).
pub open spec fn refs_ok(e: PlannedExpression, nl: nat, nr: nat) -> bool
    decreases e,
{
    match e.kind {
        PlannedExpressionKind::ColumnValue(c) => (c.tuple_idx == 0 && c.col_idx < nl) || (c.tuple_idx == 1 && c.col_idx < nr),
        PlannedExpressionKind::ConstantValue(_) => true,
        PlannedExpressionKind::Comparison(c) => refs_ok(*c.left, nl, nr) && refs_ok(*c.right, nl, nr),
        PlannedExpressionKind::Arithmetic(c) => refs_ok(*c.left, nl, nr) && refs_ok(*c.right, nl, nr),
        PlannedExpressionKind::Logic(c) => refs_ok(*c.left, nl, nr) && refs_ok(*c.right, nl, nr),
        PlannedExpressionKind::Not(c) => refs_ok(*c.expr, nl, nr),
        PlannedExpressionKind::Negate(c) => refs_ok(*c.expr, nl, nr),
        PlannedExpressionKind::NullCheck(c) => refs_ok(*c.expr, nl, nr),
    }
}

/// The value of `e` over the rows `l` and `r`; operands are evaluated left
/// to right and the first error is the result.
pub open spec fn eval(e: PlannedExpression, l: Seq<Value>, r: Seq<Value>) -> Result<Value, ExecutionError>
    decreases e,
{
    match e.kind {
        PlannedExpressionKind::ColumnValue(c) => Ok(if c.tuple_idx == 0 { l[c.col_idx as int] } else { r[c.col_idx as int] }),
        PlannedExpressionKind::ConstantValue(c) => Ok(c.value),
        PlannedExpressionKind::Comparison(c) => match eval(*c.left, l, r) {
            Err(err) => Err(err),
            Ok(lv) => match eval(*c.right, l, r) {
                Err(err) => Err(err),
                Ok(rv) => spec_compare(lv, rv, c.comparison_type),
            },
        },
        PlannedExpressionKind::Arithmetic(c) => match eval(*c.left, l, r) {
            Err(err) => Err(err),
            Ok(lv) => match eval(*c.right, l, r) {
                Err(err) => Err(err),
                Ok(rv) => spec_arith(c.arithmetic_type, lv, rv),
            },
        },
        PlannedExpressionKind::Logic(c) => match eval(*c.left, l, r) {
            Err(err) => Err(err),
            Ok(lv) => match spec_truth(lv) {
                Err(err) => Err(err),
                Ok(lt) => match eval(*c.right, l, r) {
                    Err(err) => Err(err),
                    Ok(rv) => match spec_truth(rv) {
                        Err(err) => Err(err),
                        Ok(rt) => Ok(truth_value(
                            match c.logic_type {
                                LogicType::And => spec_and(lt, rt),
                                LogicType::Or => spec_or(lt, rt),
                            },
                        )),
                    },
                },
            },
        },
        PlannedExpressionKind::Not(c) => match eval(*c.expr, l, r) {
            Err(err) => Err(err),
            Ok(v) => match spec_truth(v) {
                Err(err) => Err(err),
                Ok(t) => Ok(truth_value(spec_not(t))),
            },
        },
        PlannedExpressionKind::Negate(c) => match eval(*c.expr, l, r) {
            Err(err) => Err(err),
            Ok(v) => spec_negate(v),
        },
        PlannedExpressionKind::NullCheck(c) => match eval(*c.expr, l, r) {
            Err(err) => Err(err),
            Ok(v) => Ok(Value::Boolean(
                match c.null_check_type {
                    NullCheckType::IsNull => v is Null,
                    NullCheckType::IsNotNull => !(v is Null),
                },
            )),
        },
    }
}

/// A row passes a filter when its predicate is TRUE (not FALSE, not NULL).
pub open spec fn spec_keep(res: Result<Value, ExecutionError>) -> Result<bool, ExecutionError> {
    match res {
        Err(err) => Err(err),
        Ok(v) => match spec_truth(v) {
            Err(err) => Err(err),
            Ok(t) => Ok(t == Some(true)),
        },
    }
}

// ---------------------------------------------------------------------
// Evaluation
// ---------------------------------------------------------------------

enum NumOperand {
    SmallInt(i16),
    Integer(i32),
    BigInt(i64),
}

spec fn operand_int(n: NumOperand) -> int {
    match n {
        NumOperand::SmallInt(i) => i as int,
        NumOperand::Integer(i) => i as int,
        NumOperand::BigInt(i) => i as int,
    }
}

/// Evaluates `expr` over one row.
pub fn evaluate_expression(expr: &PlannedExpression, row: &[Value]) -> (res: Result<Value, ExecutionError>)
    requires
        refs_ok(*expr, row@.len(), 0),
    ensures
        res == eval(*expr, row@, Seq::<Value>::empty()),
{
    let empty: Vec<Value> = Vec::new();
    assert(empty@ =~= Seq::<Value>::empty());
    evaluate_join_expression(expr, row, empty.as_slice())
}

/// Evaluates `expr` over a pair of rows, as a join predicate sees them.
pub fn evaluate_join_expression(expr: &PlannedExpression, left: &[Value], right: &[Value]) -> (res: Result<Value, ExecutionError>)
    requires
        refs_ok(*expr, left@.len(), right@.len()),
    ensures
        res == eval(*expr, left@, right@),
    decreases expr,
{
    match &expr.kind {
        PlannedExpressionKind::ColumnValue(c) => {
            if c.tuple_idx == 0 {
                Ok(left[c.col_idx].clone())
            } else {
                Ok(right[c.col_idx].clone())
            }
        },
        PlannedExpressionKind::ConstantValue(c) => Ok(c.value.clone()),
        PlannedExpressionKind::Comparison(c) => {
            let lv = evaluate_join_expression(&c.left, left, right)?;
            let rv = evaluate_join_expression(&c.right, left, right)?;
            eval_comparison(lv, rv, c.comparison_type)
        },
        PlannedExpressionKind::Arithmetic(c) => {
            let lv = evaluate_join_expression(&c.left, left, right)?;
            let rv = evaluate_join_expression(&c.right, left, right)?;
            eval_arithmetic(c.arithmetic_type, lv, rv)
        },
        PlannedExpressionKind::Logic(c) => {
            let lt = expect_bool(evaluate_join_expression(&c.left, left, right)?)?;
            let rt = expect_bool(evaluate_join_expression(&c.right, left, right)?)?;
            match c.logic_type {
                LogicType::And => Ok(eval_and(lt, rt)),
                LogicType::Or => Ok(eval_or(lt, rt)),
            }
        },
        PlannedExpressionKind::Not(c) => {
            match expect_bool(evaluate_join_expression(&c.expr, left, right)?)? {
                Some(true) => Ok(Value::Boolean(false)),
                Some(false) => Ok(Value::Boolean(true)),
                None => Ok(Value::Null(SqlType::Boolean)),
            }
        },
        PlannedExpressionKind::Negate(c) => {
            let v = evaluate_join_expression(&c.expr, left, right)?;
            eval_negate(v)
        },
        PlannedExpressionKind::NullCheck(c) => {
            let v = evaluate_join_expression(&c.expr, left, right)?;
            match c.null_check_type {
                NullCheckType::IsNull => Ok(Value::Boolean(v.is_null())),
                NullCheckType::IsNotNull => Ok(Value::Boolean(!v.is_null())),
            }
        },
    }
}

/// Whether a row passes a filter whose predicate is `predicate`.
pub fn filter_keep_row(predicate: &PlannedExpression, row: &[Value]) -> (res: Result<bool, ExecutionError>)
    requires
        refs_ok(*predicate, row@.len(), 0),
    ensures
        res == spec_keep(eval(*predicate, row@, Seq::<Value>::empty())),
{
    let v = evaluate_expression(predicate, row)?;
    let t = expect_bool(v)?;
    Ok(t == Some(true))
}

/// Whether a pair of rows satisfies a join predicate.
pub fn filter_join_row(predicate: &PlannedExpression, left: &[Value], right: &[Value]) -> (res: Result<bool, ExecutionError>)
    requires
        refs_ok(*predicate, left@.len(), right@.len()),
    ensures
        res == spec_keep(eval(*predicate, left@, right@)),
{
    let v = evaluate_join_expression(predicate, left, right)?;
    let t = expect_bool(v)?;
    Ok(t == Some(true))
}

pub fn eval_comparison(left: Value, right: Value, comparison_type: ComparisonType) -> (res: Result<Value, ExecutionError>)
    ensures
        res == spec_compare(left, right, comparison_type),
{
    if can_compare_as_numeric(&left, &right) {
        return eval_numeric_comparison(left, right, comparison_type);
    }
    if left.is_null() || right.is_null() {
        if left.sql_type() == right.sql_type() {
            return Ok(Value::Null(SqlType::Boolean));
        }
        return Err(ExecutionError::ComparisonTypeMismatch(left, right));
    }
    match (&left, &right) {
        (Value::Boolean(a), Value::Boolean(b)) => {
            let r = eval_ord_comparison(!*a && *b, *a == *b, comparison_type);
            Ok(Value::Boolean(r))
        },
        (Value::Varchar(a), Value::Varchar(b)) => {
            let lt = str_lt(a.as_str(), b.as_str());
            let eq = *a == *b;
            Ok(Value::Boolean(eval_ord_comparison(lt, eq, comparison_type)))
        },
        _ => Err(ExecutionError::ComparisonTypeMismatch(left, right)),
    }
}

/// Whether the comparison holds, given the order of the two sides.
pub fn eval_ord_comparison(lt: bool, eq: bool, comparison_type: ComparisonType) -> (res: bool)
    ensures
        res == compare_holds(comparison_type, lt, eq),
{
    match comparison_type {
        ComparisonType::Eq => eq,
        ComparisonType::NotEq => !eq,
        ComparisonType::LessThan => lt,
        ComparisonType::LessThanOrEqual => lt || eq,
        ComparisonType::GreaterThan => !lt && !eq,
        ComparisonType::GreaterThanOrEqual => !lt,
    }
}

fn eval_numeric_comparison(left: Value, right: Value, comparison_type: ComparisonType) -> (res: Result<Value, ExecutionError>)
    requires
        is_numeric_type(value_type(left)),
        is_numeric_type(value_type(right)),
    ensures
        res == spec_compare(left, right, comparison_type),
{
    if left.is_null() || right.is_null() {
        return Ok(Value::Null(SqlType::Boolean));
    }
    let a = int_as_i64(&left);
    let b = int_as_i64(&right);
    Ok(Value::Boolean(eval_ord_comparison(a < b, a == b, comparison_type)))
}

fn int_as_i64(v: &Value) -> (res: i64)
    ensures
        res as int == int_of(*v),
{
    match v {
        Value::SmallInt(i) => *i as i64,
        Value::Integer(i) => *i as i64,
        Value::BigInt(i) => *i,
        _ => 0,
    }
}

pub fn can_compare_as_numeric(left: &Value, right: &Value) -> (res: bool)
    ensures
        res == (is_numeric_type(value_type(*left)) && is_numeric_type(value_type(*right))),
{
    is_numeric(left.sql_type()) && is_numeric(right.sql_type())
}

pub fn is_numeric(sql_type: SqlType) -> (res: bool)
    ensures
        res == is_numeric_type(sql_type),
{
    match sql_type {
        SqlType::SmallInt | SqlType::Integer | SqlType::BigInt | SqlType::Decimal => true,
        _ => false,
    }
}

/// The type that two numeric operands are widened to.
pub fn numeric_result_type(left: &Value, right: &Value) -> (res: Result<SqlType, ExecutionError>)
    ensures
        res == (if !is_numeric_type(value_type(*left)) {
            Err(ExecutionError::ExpectedNumeric(*left))
        } else if !is_numeric_type(value_type(*right)) {
            Err(ExecutionError::ExpectedNumeric(*right))
        } else {
            Ok(widened_type(value_type(*left), value_type(*right)))
        }),
{
    let left_type = expect_numeric_type(left)?;
    let right_type = expect_numeric_type(right)?;
    if left_type == SqlType::Decimal || right_type == SqlType::Decimal {
        Ok(SqlType::Decimal)
    } else if left_type == SqlType::BigInt || right_type == SqlType::BigInt {
        Ok(SqlType::BigInt)
    } else if left_type == SqlType::Integer || right_type == SqlType::Integer {
        Ok(SqlType::Integer)
    } else {
        Ok(SqlType::SmallInt)
    }
}

pub fn expect_numeric_type(value: &Value) -> (res: Result<SqlType, ExecutionError>)
    ensures
        res == (if is_numeric_type(value_type(*value)) {
            Ok(value_type(*value))
        } else {
            Err(ExecutionError::ExpectedNumeric(*value))
        }),
{
    let sql_type = value.sql_type();
    if is_numeric(sql_type) {
        Ok(sql_type)
    } else {
        Err(ExecutionError::ExpectedNumeric(value.clone()))
    }
}

fn cast_numeric(value: &Value, target_type: SqlType) -> (res: NumOperand)
    requires
        value is SmallInt || value is Integer || value is BigInt,
        target_type == SqlType::SmallInt || target_type == SqlType::Integer || target_type == SqlType::BigInt,
        target_type == widened_type(value_type(*value), target_type),
    ensures
        operand_int(res) == int_of(*value),
        target_type == SqlType::SmallInt ==> res is SmallInt,
        target_type == SqlType::Integer ==> res is Integer,
        target_type == SqlType::BigInt ==> res is BigInt,
{
    match (value, target_type) {
        (Value::SmallInt(i), SqlType::SmallInt) => NumOperand::SmallInt(*i),
        (Value::SmallInt(i), SqlType::Integer) => NumOperand::Integer(*i as i32),
        (Value::SmallInt(i), _) => NumOperand::BigInt(*i as i64),
        (Value::Integer(i), SqlType::Integer) => NumOperand::Integer(*i),
        (Value::Integer(i), _) => NumOperand::BigInt(*i as i64),
        (Value::BigInt(i), _) => NumOperand::BigInt(*i),
        _ => NumOperand::BigInt(0),
    }
}

/// Adds or subtracts two values.
pub fn eval_arithmetic(arithmetic_type: ArithmeticType, left: Value, right: Value) -> (res: Result<Value, ExecutionError>)
    ensures
        res == spec_arith(arithmetic_type, left, right),
{
    let result_type = numeric_result_type(&left, &right)?;
    if left.is_null() || right.is_null() {
        return Ok(Value::Null(result_type));
    }
    let a = cast_numeric(&left, result_type);
    let b = cast_numeric(&right, result_type);
    match arithmetic_type {
        ArithmeticType::Plus => eval_add(a, b),
        ArithmeticType::Minus => eval_sub(a, b),
    }
}

fn eval_add(left: NumOperand, right: NumOperand) -> (res: Result<Value, ExecutionError>)
    requires
        (left is SmallInt && right is SmallInt) || (left is Integer && right is Integer) || (left is BigInt && right is BigInt),
    ensures
        res == int_value(
            if left is SmallInt { SqlType::SmallInt } else if left is Integer { SqlType::Integer } else { SqlType::BigInt },
            operand_int(left) + operand_int(right),
        ),
{
    match (left, right) {
        (NumOperand::SmallInt(a), NumOperand::SmallInt(b)) => match a.checked_add(b) {
            Some(v) => Ok(Value::SmallInt(v)),
            None => Err(ExecutionError::NumericOutOfRange),
        },
        (NumOperand::Integer(a), NumOperand::Integer(b)) => match a.checked_add(b) {
            Some(v) => Ok(Value::Integer(v)),
            None => Err(ExecutionError::NumericOutOfRange),
        },
        (NumOperand::BigInt(a), NumOperand::BigInt(b)) => match a.checked_add(b) {
            Some(v) => Ok(Value::BigInt(v)),
            None => Err(ExecutionError::NumericOutOfRange),
        },
        _ => Err(ExecutionError::NumericOutOfRange),
    }
}

fn eval_sub(left: NumOperand, right: NumOperand) -> (res: Result<Value, ExecutionError>)
    requires
        (left is SmallInt && right is SmallInt) || (left is Integer && right is Integer) || (left is BigInt && right is BigInt),
    ensures
        res == int_value(
            if left is SmallInt { SqlType::SmallInt } else if left is Integer { SqlType::Integer } else { SqlType::BigInt },
            operand_int(left) - operand_int(right),
        ),
{
    match (left, right) {
        (NumOperand::SmallInt(a), NumOperand::SmallInt(b)) => match a.checked_sub(b) {
            Some(v) => Ok(Value::SmallInt(v)),
            None => Err(ExecutionError::NumericOutOfRange),
        },
        (NumOperand::Integer(a), NumOperand::Integer(b)) => match a.checked_sub(b) {
            Some(v) => Ok(Value::Integer(v)),
            None => Err(ExecutionError::NumericOutOfRange),
        },
        (NumOperand::BigInt(a), NumOperand::BigInt(b)) => match a.checked_sub(b) {
            Some(v) => Ok(Value::BigInt(v)),
            None => Err(ExecutionError::NumericOutOfRange),
        },
        _ => Err(ExecutionError::NumericOutOfRange),
    }
}

/// Negates a numeric value.
pub fn eval_negate(value: Value) -> (res: Result<Value, ExecutionError>)
    ensures
        res == spec_negate(value),
{
    match value {
        Value::SmallInt(i) => if i == i16::MIN {
            Err(ExecutionError::NumericOutOfRange)
        } else {
            Ok(Value::SmallInt(-i))
        },
        Value::Integer(i) => if i == i32::MIN {
            Err(ExecutionError::NumericOutOfRange)
        } else {
            Ok(Value::Integer(-i))
        },
        Value::BigInt(i) => if i == i64::MIN {
            Err(ExecutionError::NumericOutOfRange)
        } else {
            Ok(Value::BigInt(-i))
        },
        Value::Null(t) => if is_numeric(t) {
            Ok(Value::Null(t))
        } else {
            Err(ExecutionError::ExpectedNumeric(Value::Null(t)))
        },
        v => Err(ExecutionError::ExpectedNumeric(v)),
    }
}

/// Reads a value as a truth value (`None`: NULL).
pub fn expect_bool(value: Value) -> (res: Result<Option<bool>, ExecutionError>)
    ensures
        res == spec_truth(value),
{
    match value {
        Value::Boolean(b) => Ok(Some(b)),
        Value::Null(_) => Ok(None),
        v => Err(ExecutionError::ExpectedBoolean(v)),
    }
}

pub fn eval_and(left: Option<bool>, right: Option<bool>) -> (res: Value)
    ensures
        res == truth_value(spec_and(left, right)),
{
    match (left, right) {
        (Some(false), _) | (_, Some(false)) => Value::Boolean(false),
        (Some(true), Some(true)) => Value::Boolean(true),
        _ => Value::Null(SqlType::Boolean),
    }
}

pub fn eval_or(left: Option<bool>, right: Option<bool>) -> (res: Value)
    ensures
        res == truth_value(spec_or(left, right)),
{
    match (left, right) {
        (Some(true), _) | (_, Some(true)) => Value::Boolean(true),
        (Some(false), Some(false)) => Value::Boolean(false),
        _ => Value::Null(SqlType::Boolean),
    }
}

/// Whether a comparison of two values is TRUE (NULL counts as not true).
pub fn eval_comparison_is_true(left: Value, right: Value, comparison_type: ComparisonType) -> (res: Result<bool, ExecutionError>)
    ensures
        res == spec_keep(spec_compare(left, right, comparison_type)),
{
    let v = eval_comparison(left, right, comparison_type)?;
    let t = expect_bool(v)?;
    Ok(t == Some(true))
}

/// The values of the first `n` ORDER BY expressions over a row, in order;
/// the first error is the outcome.
pub open spec fn sort_key(obs: Seq<PlannedOrderBy>, row: Seq<Value>, n: int) -> Result<Seq<Value>, ExecutionError>
    decreases n,
{
    if n <= 0 {
        Ok(Seq::empty())
    } else {
        match sort_key(obs, row, n - 1) {
            Err(e) => Err(e),
            Ok(prev) => match eval(obs[n - 1].expression, row, Seq::<Value>::empty()) {
                Err(e) => Err(e),
                Ok(v) => Ok(prev.push(v)),
            },
        }
    }
}

/// The key that ORDER BY clauses give a row.
pub open spec fn row_key(obs: Seq<PlannedOrderBy>, row: Seq<Value>) -> Result<Seq<Value>, ExecutionError> {
    sort_key(obs, row, obs.len() as int)
}

/// Every ORDER BY expression refers only to the first `width` values of a
/// row.
pub open spec fn orders_refs_ok(obs: Seq<PlannedOrderBy>, width: nat) -> bool {
    forall|k: int| 0 <= k < obs.len() ==> refs_ok(#[trigger] obs[k].expression, width, 0)
}

pub proof fn lemma_sort_key_len(obs: Seq<PlannedOrderBy>, row: Seq<Value>, n: int)
    requires
        0 <= n,
    ensures
        sort_key(obs, row, n) matches Ok(k) ==> k.len() == n,
    decreases n,
{
    if n > 0 {
        lemma_sort_key_len(obs, row, n - 1);
    }
}

proof fn lemma_sort_key_err_sticks(obs: Seq<PlannedOrderBy>, row: Seq<Value>, k: int, n: int)
    requires
        0 <= k <= n,
        sort_key(obs, row, k) is Err,
    ensures
        sort_key(obs, row, n) == sort_key(obs, row, k),
    decreases n - k,
{
    if k < n {
        lemma_sort_key_err_sticks(obs, row, k, n - 1);
    }
}

/// The sort key of a row.
pub fn generate_sort_key(row: &[Value], order_bys: &[PlannedOrderBy]) -> (res: Result<Vec<Value>, ExecutionError>)
    requires
        orders_refs_ok(order_bys@, row@.len()),
    ensures
        match row_key(order_bys@, row@) {
            Ok(k) => res matches Ok(v) && v@ == k,
            Err(e) => res == Err::<Vec<Value>, ExecutionError>(e),
        },
{
    let mut out: Vec<Value> = Vec::new();
    let mut i: usize = 0;
    while i < order_bys.len()
        invariant
            i <= order_bys@.len(),
            orders_refs_ok(order_bys@, row@.len()),
            sort_key(order_bys@, row@, i as int) == Ok::<Seq<Value>, ExecutionError>(out@),
        decreases order_bys@.len() - i,
    {
        assert(refs_ok(order_bys@[i as int].expression, row@.len(), 0));
        match evaluate_expression(&order_bys[i].expression, row) {
            Ok(v) => out.push(v),
            Err(e) => {
                proof { lemma_sort_key_err_sticks(order_bys@, row@, i as int + 1, order_bys@.len() as int); }
                return Err(e);
            },
        }
        i = i + 1;
    }
    Ok(out)
}

} // verus!
