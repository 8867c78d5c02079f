use oxtub::catalog::column::Column;
use oxtub::catalog::schema::Schema;
use oxtub::catalog::types::SqlType;
use oxtub::query::executor::engine::ExecutorRow;
use oxtub::query::executor::nested_loop_join::NestedLoopJoinExecutor;
use oxtub::query::planner::expression::{
    ColumnValueExpression, ComparisonExpression, ComparisonType, ExpressionType, PlannedExpression,
    PlannedExpressionKind,
};
use oxtub::query::planner::plan::{NestedLoopJoinPlan, PlanNode, PlanNodeKind, ValuesPlan};
use oxtub::query::table_ref::JoinType;
use oxtub::types::value::Value;

fn int_schema(name: &str) -> Schema {
    Schema::new(&[Column::new_static(name.to_string(), SqlType::Integer)])
}

fn int_rows(values: &[i32]) -> Vec<ExecutorRow> {
    values
        .iter()
        .map(|value| ExecutorRow {
            rid: None,
            values: vec![Value::Integer(*value)],
        })
        .collect()
}

fn dummy_values_plan(output_schema: Schema) -> PlanNode {
    PlanNode {
        output_schema,
        kind: PlanNodeKind::Values(ValuesPlan { rows: vec![] }),
    }
}

fn int_col(tuple_idx: usize) -> PlannedExpression {
    PlannedExpression {
        return_type: ExpressionType {
            sql_type: SqlType::Integer,
            varchar_size: None,
        },
        kind: PlannedExpressionKind::ColumnValue(ColumnValueExpression {
            tuple_idx,
            col_idx: 0,
        }),
    }
}

fn eq_join_predicate() -> PlannedExpression {
    PlannedExpression {
        return_type: ExpressionType::new_bool(),
        kind: PlannedExpressionKind::Comparison(ComparisonExpression {
            left: Box::new(int_col(0)),
            comparison_type: ComparisonType::Eq,
            right: Box::new(int_col(1)),
        }),
    }
}

fn join_plan(join_type: JoinType, left_schema: Schema, right_schema: Schema) -> NestedLoopJoinPlan {
    NestedLoopJoinPlan {
        left: Box::new(dummy_values_plan(left_schema)),
        right: Box::new(dummy_values_plan(right_schema)),
        join_type,
        predicate: Some(eq_join_predicate()),
    }
}

fn collect_join_batches(executor: &mut NestedLoopJoinExecutor<'_>, batch_size: usize) -> Vec<Vec<ExecutorRow>> {
    executor.init().unwrap();

    let mut batches = vec![];
    loop {
        let batch = executor.next(batch_size).unwrap();
        if batch.is_empty() {
            break;
        }
        batches.push(batch);
    }

    batches
}

fn joined_values(left: i32, right: Value) -> ExecutorRow {
    ExecutorRow {
        rid: None,
        values: vec![Value::Integer(left), right],
    }
}

fn output_schema() -> Schema {
    Schema::new(&[
        Column::new_static("left_id".to_string(), SqlType::Integer),
        Column::new_static("right_id".to_string(), SqlType::Integer),
    ])
}

#[test]
fn inner_join_resumes_buffered_inner_rows_across_batches() {
    let left_schema = int_schema("left_id");
    let right_schema = int_schema("right_id");
    let output_schema = output_schema();
    let plan = join_plan(JoinType::Inner, left_schema, right_schema);
    let mut executor = NestedLoopJoinExecutor::new(&plan, &output_schema, int_rows(&[1, 2]), int_rows(&[1, 1, 2]));

    let batches = collect_join_batches(&mut executor, 2);

    assert_eq!(
        batches,
        vec![
            vec![
                joined_values(1, Value::Integer(1)),
                joined_values(1, Value::Integer(1)),
            ],
            vec![joined_values(2, Value::Integer(2))],
        ]
    );
}

#[test]
fn left_join_emits_unmatched_outer_rows_across_batches() {
    let left_schema = int_schema("left_id");
    let right_schema = int_schema("right_id");
    let output_schema = output_schema();
    let plan = join_plan(JoinType::Left, left_schema, right_schema);
    let mut executor = NestedLoopJoinExecutor::new(&plan, &output_schema, int_rows(&[1, 2, 3]), int_rows(&[1, 3]));

    let batches = collect_join_batches(&mut executor, 1);

    assert_eq!(
        batches,
        vec![
            vec![joined_values(1, Value::Integer(1))],
            vec![joined_values(2, Value::Null(SqlType::Integer))],
            vec![joined_values(3, Value::Integer(3))],
        ]
    );
}

#[test]
fn cross_join_pairs_every_row() {
    let output_schema = output_schema();
    let mut plan = join_plan(JoinType::Cross, int_schema("left_id"), int_schema("right_id"));
    plan.predicate = None;
    let mut executor = NestedLoopJoinExecutor::new(&plan, &output_schema, int_rows(&[1, 2]), int_rows(&[7, 8]));
    let batches = collect_join_batches(&mut executor, 10);
    assert_eq!(
        batches,
        vec![vec![
            joined_values(1, Value::Integer(7)),
            joined_values(1, Value::Integer(8)),
            joined_values(2, Value::Integer(7)),
            joined_values(2, Value::Integer(8)),
        ]]
    );
}
