use oxtub::catalog::column::Column;
use oxtub::catalog::schema::Schema;
use oxtub::catalog::types::SqlType;
use oxtub::query::executor::engine::ExecutorRow;
use oxtub::query::executor::error::ExecutionError;
use oxtub::query::executor::limit::LimitExecutor;
use oxtub::query::executor::sort::{ExternalMergeSortExecutor, MergeSortRun, MergeSortRunIterator, SortEntry};
use oxtub::query::planner::expression::{
    ArithmeticExpression, ArithmeticType, ColumnValueExpression, ConstantValueExpression,
    ExpressionType, PlannedExpression, PlannedExpressionKind,
};
use oxtub::query::planner::plan::{LimitPlan, PlannedOrderBy, SortPlan};
use oxtub::query::statement::{OrderByNullType, OrderByType};
use oxtub::types::value::Value;

fn int_schema() -> Schema {
    Schema::new(&[
        Column::new_static("a".to_string(), SqlType::Integer),
        Column::new_static("b".to_string(), SqlType::Integer),
    ])
}

fn row(a: Value, b: Value) -> ExecutorRow {
    ExecutorRow {
        rid: None,
        values: vec![a, b],
    }
}

fn int_rows(pairs: &[(i32, i32)]) -> Vec<ExecutorRow> {
    pairs
        .iter()
        .map(|(a, b)| row(Value::Integer(*a), Value::Integer(*b)))
        .collect()
}

fn col(col_idx: usize) -> PlannedExpression {
    PlannedExpression {
        return_type: ExpressionType {
            sql_type: SqlType::Integer,
            varchar_size: None,
        },
        kind: PlannedExpressionKind::ColumnValue(ColumnValueExpression {
            tuple_idx: 0,
            col_idx,
        }),
    }
}

fn constant(value: Value) -> PlannedExpression {
    PlannedExpression {
        return_type: ExpressionType {
            sql_type: SqlType::Integer,
            varchar_size: None,
        },
        kind: PlannedExpressionKind::ConstantValue(ConstantValueExpression { value }),
    }
}

fn order_by(expression: PlannedExpression, order_by_type: OrderByType, null_type: OrderByNullType) -> PlannedOrderBy {
    PlannedOrderBy {
        expression,
        order_by_type,
        null_type,
    }
}

fn values_of(rows: &[ExecutorRow]) -> Vec<Vec<Value>> {
    rows.iter().map(|r| r.values.clone()).collect()
}

fn drain_sorted(executor: &mut ExternalMergeSortExecutor<'_>, batch_size: usize) -> Vec<ExecutorRow> {
    let mut all = vec![];
    loop {
        let batch = executor.next(batch_size).unwrap();
        if batch.is_empty() {
            break;
        }
        assert!(batch.len() <= batch_size);
        all.extend(batch);
    }
    all
}

#[test]
fn sorts_rows_ascending_then_descending() {
    let schema = int_schema();
    let plan = SortPlan {
        order_bys: vec![
            order_by(col(0), OrderByType::Asc, OrderByNullType::Last),
            order_by(col(1), OrderByType::Desc, OrderByNullType::Last),
        ],
    };
    let input = int_rows(&[(3, 1), (1, 5), (2, 2), (1, 7), (3, 0), (2, 9), (1, 6)]);
    let mut executor = ExternalMergeSortExecutor::new(&plan, &schema, input);
    executor.init().unwrap();
    let rows = drain_sorted(&mut executor, 3);
    assert_eq!(
        values_of(&rows),
        values_of(&int_rows(&[(1, 7), (1, 6), (1, 5), (2, 9), (2, 2), (3, 1), (3, 0)]))
    );
    assert!(rows.iter().all(|r| r.rid.is_none()));
}

#[test]
fn sorts_nulls_where_the_clause_puts_them() {
    let schema = int_schema();
    let input = vec![
        row(Value::Integer(2), Value::Integer(0)),
        row(Value::Null(SqlType::Integer), Value::Integer(1)),
        row(Value::Integer(1), Value::Integer(2)),
    ];
    let first = SortPlan {
        order_bys: vec![order_by(col(0), OrderByType::Asc, OrderByNullType::First)],
    };
    let mut executor = ExternalMergeSortExecutor::new(&first, &schema, input);
    executor.init().unwrap();
    let rows = drain_sorted(&mut executor, 10);
    assert_eq!(
        rows.iter().map(|r| r.values[1].clone()).collect::<Vec<_>>(),
        vec![Value::Integer(1), Value::Integer(2), Value::Integer(0)]
    );

    let input = vec![
        row(Value::Integer(2), Value::Integer(0)),
        row(Value::Null(SqlType::Integer), Value::Integer(1)),
        row(Value::Integer(1), Value::Integer(2)),
    ];
    let last = SortPlan {
        order_bys: vec![order_by(col(0), OrderByType::Desc, OrderByNullType::Last)],
    };
    let mut executor = ExternalMergeSortExecutor::new(&last, &schema, input);
    executor.init().unwrap();
    let rows = drain_sorted(&mut executor, 10);
    assert_eq!(
        rows.iter().map(|r| r.values[1].clone()).collect::<Vec<_>>(),
        vec![Value::Integer(0), Value::Integer(2), Value::Integer(1)]
    );
}

#[test]
fn keeps_input_order_of_equal_keys() {
    let schema = int_schema();
    let plan = SortPlan {
        order_bys: vec![order_by(col(0), OrderByType::Asc, OrderByNullType::Last)],
    };
    let input = int_rows(&[(2, 1), (1, 1), (2, 2), (1, 2), (2, 3), (1, 3)]);
    let mut executor = ExternalMergeSortExecutor::new(&plan, &schema, input);
    executor.init().unwrap();
    let rows = drain_sorted(&mut executor, 4);
    assert_eq!(
        values_of(&rows),
        values_of(&int_rows(&[(1, 1), (1, 2), (1, 3), (2, 1), (2, 2), (2, 3)]))
    );
}

#[test]
fn sorts_an_empty_input() {
    let schema = int_schema();
    let plan = SortPlan {
        order_bys: vec![order_by(col(0), OrderByType::Asc, OrderByNullType::Last)],
    };
    let mut executor = ExternalMergeSortExecutor::new(&plan, &schema, vec![]);
    executor.init().unwrap();
    assert!(executor.next(5).unwrap().is_empty());
}

#[test]
fn sort_reports_uninitialised_before_init() {
    let schema = int_schema();
    let plan = SortPlan {
        order_bys: vec![order_by(col(0), OrderByType::Asc, OrderByNullType::Last)],
    };
    let mut executor = ExternalMergeSortExecutor::new(&plan, &schema, int_rows(&[(1, 1)]));
    assert_eq!(executor.next(5), Err(ExecutionError::Uninitialised));
}

#[test]
fn sort_reports_the_first_failing_key() {
    let schema = int_schema();
    // a + 'x' fails on every row: the value is no number
    let bad = PlannedExpression {
        return_type: ExpressionType {
            sql_type: SqlType::Integer,
            varchar_size: None,
        },
        kind: PlannedExpressionKind::Arithmetic(ArithmeticExpression {
            left: Box::new(col(0)),
            arithmetic_type: ArithmeticType::Plus,
            right: Box::new(constant(Value::Varchar("x".to_string()))),
        }),
    };
    let plan = SortPlan {
        order_bys: vec![order_by(bad, OrderByType::Asc, OrderByNullType::Last)],
    };
    let mut executor = ExternalMergeSortExecutor::new(&plan, &schema, int_rows(&[(1, 1), (2, 2)]));
    assert_eq!(
        executor.init(),
        Err(ExecutionError::ExpectedNumeric(Value::Varchar("x".to_string())))
    );
}

fn entry(key: i32, tag: i32) -> SortEntry {
    SortEntry {
        key: vec![Value::Integer(key)],
        values: vec![Value::Integer(key), Value::Integer(tag)],
    }
}

#[test]
fn run_iterator_hands_out_rows_in_order() {
    let mut it = MergeSortRunIterator::new(vec![entry(4, 0), entry(7, 1)]);
    assert_eq!(it.next().map(|r| r.values), Some(vec![Value::Integer(4), Value::Integer(0)]));
    assert_eq!(it.next().map(|r| r.values), Some(vec![Value::Integer(7), Value::Integer(1)]));
    assert!(it.next().is_none());

    let mut it = MergeSortRun::new(vec![entry(9, 2)]).into_iter();
    assert_eq!(it.next().map(|r| r.values), Some(vec![Value::Integer(9), Value::Integer(2)]));
    assert!(it.next().is_none());
}

fn limit_plan(limit: Value) -> LimitPlan {
    LimitPlan {
        limit: constant(limit),
    }
}

fn drain_limit(executor: &mut LimitExecutor<'_>, batch_size: usize) -> Vec<ExecutorRow> {
    let mut all = vec![];
    loop {
        let batch = executor.next(batch_size).unwrap();
        if batch.is_empty() {
            break;
        }
        assert!(batch.len() <= batch_size);
        all.extend(batch);
    }
    all
}

#[test]
fn limit_passes_at_most_its_count() {
    let schema = int_schema();
    let plan = limit_plan(Value::Integer(3));
    let input = int_rows(&[(1, 0), (2, 0), (3, 0), (4, 0), (5, 0)]);
    let mut executor = LimitExecutor::new(&plan, &schema, input);
    executor.init().unwrap();
    let rows = drain_limit(&mut executor, 2);
    assert_eq!(values_of(&rows), values_of(&int_rows(&[(1, 0), (2, 0), (3, 0)])));
}

#[test]
fn limit_of_null_passes_everything() {
    let schema = int_schema();
    let plan = limit_plan(Value::Null(SqlType::Integer));
    let input = int_rows(&[(1, 0), (2, 0), (3, 0)]);
    let mut executor = LimitExecutor::new(&plan, &schema, input);
    executor.init().unwrap();
    assert_eq!(drain_limit(&mut executor, 2).len(), 3);
}

#[test]
fn limit_accepts_every_integer_type() {
    let schema = int_schema();
    for limit in [Value::SmallInt(2), Value::Integer(2), Value::BigInt(2)] {
        let plan = limit_plan(limit);
        let mut executor = LimitExecutor::new(&plan, &schema, int_rows(&[(1, 0), (2, 0), (3, 0)]));
        executor.init().unwrap();
        assert_eq!(drain_limit(&mut executor, 10).len(), 2);
    }
}

#[test]
fn limit_passes_nothing_before_init() {
    let schema = int_schema();
    let plan = limit_plan(Value::Integer(3));
    let mut executor = LimitExecutor::new(&plan, &schema, int_rows(&[(1, 0)]));
    assert!(executor.next(5).unwrap().is_empty());
}

#[test]
fn limit_rejects_negative_and_non_integer_limits() {
    let schema = int_schema();
    let negative = limit_plan(Value::BigInt(-1));
    let mut executor = LimitExecutor::new(&negative, &schema, int_rows(&[(1, 0)]));
    assert_eq!(executor.init(), Err(ExecutionError::NegativeLimit));

    let negative = limit_plan(Value::SmallInt(-4));
    let mut executor = LimitExecutor::new(&negative, &schema, int_rows(&[(1, 0)]));
    assert_eq!(executor.init(), Err(ExecutionError::NegativeLimit));

    let text = limit_plan(Value::Varchar("ten".to_string()));
    let mut executor = LimitExecutor::new(&text, &schema, int_rows(&[(1, 0)]));
    assert_eq!(
        executor.init(),
        Err(ExecutionError::ExpectedInteger(Value::Varchar("ten".to_string())))
    );
}
