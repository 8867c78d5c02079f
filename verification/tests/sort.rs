use std::cmp::Ordering;

use oxtub::catalog::types::SqlType;
use oxtub::query::executor::sort::TupleComparator;
use oxtub::query::planner::expression::{
    ConstantValueExpression, ExpressionType, PlannedExpression, PlannedExpressionKind,
};
use oxtub::query::planner::plan::PlannedOrderBy;
use oxtub::query::statement::{OrderByNullType, OrderByType};
use oxtub::types::value::Value;

fn order_by(order_by_type: OrderByType, null_type: OrderByNullType) -> PlannedOrderBy {
    PlannedOrderBy {
        expression: PlannedExpression {
            return_type: ExpressionType {
                sql_type: SqlType::Integer,
                varchar_size: None,
            },
            kind: PlannedExpressionKind::ConstantValue(ConstantValueExpression {
                value: Value::Integer(0),
            }),
        },
        order_by_type,
        null_type,
    }
}

#[test]
fn compares_ascending_and_descending_values() {
    let ascending = TupleComparator::new(vec![order_by(OrderByType::Asc, OrderByNullType::Last)]);
    assert_eq!(
        ascending.compare_keys(&vec![Value::Integer(1)], &vec![Value::Integer(2)]),
        Ordering::Less
    );
    assert_eq!(
        ascending.compare_keys(&vec![Value::Integer(2)], &vec![Value::Integer(1)]),
        Ordering::Greater
    );

    let descending = TupleComparator::new(vec![order_by(OrderByType::Desc, OrderByNullType::Last)]);
    assert_eq!(
        descending.compare_keys(&vec![Value::Integer(1)], &vec![Value::Integer(2)]),
        Ordering::Greater
    );
    assert_eq!(
        descending.compare_keys(&vec![Value::Integer(2)], &vec![Value::Integer(1)]),
        Ordering::Less
    );
}

#[test]
fn compares_multiple_keys_lexicographically() {
    let comparator = TupleComparator::new(vec![
        order_by(OrderByType::Asc, OrderByNullType::Last),
        order_by(OrderByType::Desc, OrderByNullType::Last),
    ]);

    assert_eq!(
        comparator.compare_keys(
            &vec![Value::Integer(1), Value::Integer(2)],
            &vec![Value::Integer(1), Value::Integer(3)],
        ),
        Ordering::Greater
    );
    assert_eq!(
        comparator.compare_keys(
            &vec![Value::Integer(1), Value::Integer(2)],
            &vec![Value::Integer(2), Value::Integer(1)],
        ),
        Ordering::Less
    );
}

#[test]
fn compares_nulls_using_null_order() {
    let nulls_first = TupleComparator::new(vec![order_by(OrderByType::Desc, OrderByNullType::First)]);
    assert_eq!(
        nulls_first.compare_keys(&vec![Value::Null(SqlType::Integer)], &vec![Value::Integer(1)]),
        Ordering::Less
    );

    let nulls_last = TupleComparator::new(vec![order_by(OrderByType::Asc, OrderByNullType::Last)]);
    assert_eq!(
        nulls_last.compare_keys(&vec![Value::Null(SqlType::Integer)], &vec![Value::Integer(1)]),
        Ordering::Greater
    );
    assert_eq!(
        nulls_last.compare_keys(
            &vec![Value::Null(SqlType::Integer)],
            &vec![Value::Null(SqlType::Integer)],
        ),
        Ordering::Equal
    );
}

#[test]
fn compares_varchars_and_equal_keys() {
    let comparator = TupleComparator::new(vec![order_by(OrderByType::Asc, OrderByNullType::First)]);
    assert_eq!(
        comparator.compare_keys(
            &vec![Value::Varchar("ant".to_string())],
            &vec![Value::Varchar("bee".to_string())],
        ),
        Ordering::Less
    );
    assert_eq!(
        comparator.compare_keys(&vec![Value::Integer(7)], &vec![Value::Integer(7)]),
        Ordering::Equal
    );
    assert_eq!(
        comparator.compare_keys(&vec![Value::Integer(7)], &vec![Value::Null(SqlType::Integer)]),
        Ordering::Greater
    );
}
