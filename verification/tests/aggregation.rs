use oxtub::catalog::types::SqlType;
use oxtub::query::executor::aggregation::{
    AggregateKey, AggregateValue, AggregationHashTable, AggregationType,
};
use oxtub::query::planner::expression::{
    ConstantValueExpression, ExpressionType, PlannedExpression, PlannedExpressionKind,
};
use oxtub::types::value::Value;

fn aggregate(aggregation_type: AggregationType) -> AggregationHashTable {
    AggregationHashTable::new(vec![(
        aggregation_type,
        PlannedExpression {
            return_type: ExpressionType::new_integer(),
            kind: PlannedExpressionKind::ConstantValue(ConstantValueExpression {
                value: Value::Integer(0),
            }),
        },
    )])
}

#[test]
fn combines_min_and_max_while_ignoring_nulls() {
    let min = aggregate(AggregationType::Min);
    let mut min_value = AggregateValue {
        values: vec![Value::Null(SqlType::Integer)],
    };
    AggregationHashTable::combine_aggregate_values(
        &min.aggregations,
        &mut min_value,
        AggregateValue {
            values: vec![Value::Integer(3)],
        },
    )
    .unwrap();
    AggregationHashTable::combine_aggregate_values(
        &min.aggregations,
        &mut min_value,
        AggregateValue {
            values: vec![Value::Integer(1)],
        },
    )
    .unwrap();
    AggregationHashTable::combine_aggregate_values(
        &min.aggregations,
        &mut min_value,
        AggregateValue {
            values: vec![Value::Null(SqlType::Integer)],
        },
    )
    .unwrap();
    assert_eq!(min_value.values, vec![Value::Integer(1)]);

    let max = aggregate(AggregationType::Max);
    let mut max_value = AggregateValue {
        values: vec![Value::Varchar("ant".into())],
    };
    AggregationHashTable::combine_aggregate_values(
        &max.aggregations,
        &mut max_value,
        AggregateValue {
            values: vec![Value::Varchar("zebra".into())],
        },
    )
    .unwrap();
    assert_eq!(max_value.values, vec![Value::Varchar("zebra".into())]);
}

#[test]
fn counts_and_sums_non_null_values() {
    let table = AggregationHashTable::new(vec![
        (
            AggregationType::Count,
            PlannedExpression {
                return_type: ExpressionType::new_integer(),
                kind: PlannedExpressionKind::ConstantValue(ConstantValueExpression {
                    value: Value::Integer(0),
                }),
            },
        ),
        (
            AggregationType::Sum,
            PlannedExpression {
                return_type: ExpressionType::new_integer(),
                kind: PlannedExpressionKind::ConstantValue(ConstantValueExpression {
                    value: Value::Integer(0),
                }),
            },
        ),
    ]);
    let mut acc = table.make_initial_value();
    assert_eq!(
        acc.values,
        vec![Value::Null(SqlType::Integer), Value::Null(SqlType::Integer)]
    );
    for v in [Value::Integer(4), Value::Null(SqlType::Integer), Value::Integer(6)] {
        AggregationHashTable::combine_aggregate_values(
            &table.aggregations,
            &mut acc,
            AggregateValue {
                values: vec![v.clone(), v],
            },
        )
        .unwrap();
    }
    assert_eq!(acc.values, vec![Value::Integer(2), Value::Integer(10)]);
}

#[test]
fn sum_overflow_is_an_error() {
    let sum = aggregate(AggregationType::Sum);
    let mut acc = AggregateValue {
        values: vec![Value::Integer(i32::MAX)],
    };
    let res = AggregationHashTable::combine_aggregate_values(
        &sum.aggregations,
        &mut acc,
        AggregateValue {
            values: vec![Value::Integer(1)],
        },
    );
    assert!(res.is_err());
}

#[test]
fn insert_combine_groups_by_key() {
    let mut table = aggregate(AggregationType::Sum);
    table
        .insert_combine(
            AggregateKey { group_bys: vec![Value::Integer(1)] },
            AggregateValue { values: vec![Value::Integer(5)] },
        )
        .unwrap();
    table
        .insert_combine(
            AggregateKey { group_bys: vec![Value::Integer(2)] },
            AggregateValue { values: vec![Value::Integer(7)] },
        )
        .unwrap();
    table
        .insert_combine(
            AggregateKey { group_bys: vec![Value::Integer(1)] },
            AggregateValue { values: vec![Value::Integer(10)] },
        )
        .unwrap();
    assert_eq!(table.table.len(), 2);
    assert_eq!(table.table[0].0.group_bys, vec![Value::Integer(1)]);
    assert_eq!(table.table[0].1.values, vec![Value::Integer(15)]);
    assert_eq!(table.table[1].1.values, vec![Value::Integer(7)]);
}
