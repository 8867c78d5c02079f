use vstd::prelude::*;
use crate::catalog::schema::Schema;
use crate::common::position::index_of;
use crate::query::executor::engine::{ExecutorRow, RowView, min_len, rows_of, take_batch};
use crate::query::executor::error::ExecutionError;
use crate::query::executor::expression::{eval, evaluate_expression, refs_ok};
use crate::query::executor::filter::rows_wide;
use crate::query::planner::expression::PlannedExpression;
use crate::query::planner::plan::ProjectionPlan;
use crate::types::value::Value;

verus! {

/// The values of the first `n` expressions over a row; the first error is
/// the outcome.
pub open spec fn eval_list(es: Seq<PlannedExpression>, row: Seq<Value>, n: int) -> Result<Seq<Value>, ExecutionError>
    decreases n,
{
    if n <= 0 {
        Ok(Seq::empty())
    } else {
        match eval_list(es, row, n - 1) {
            Err(e) => Err(e),
            Ok(prev) => match eval(es[n - 1], row, Seq::<Value>::empty()) {
                Err(e) => Err(e),
                Ok(v) => Ok(prev.push(v)),
            },
        }
    }
}

/// The first `n` rows projected: each the values of the expressions over it,
/// with no record id.
pub open spec fn project_rows(es: Seq<PlannedExpression>, rows: Seq<RowView>, n: int) -> Result<Seq<RowView>, ExecutionError>
    decreases n,
{
    if n <= 0 {
        Ok(Seq::empty())
    } else {
        match project_rows(es, rows, n - 1) {
            Err(e) => Err(e),
            Ok(prev) => match eval_list(es, rows[n - 1].values, es.len() as int) {
                Err(e) => Err(e),
                Ok(vs) => Ok(prev.push(RowView { rid: None, values: vs })),
            },
        }
    }
}

/// Every expression refers only to the first `width` values of a row.
pub open spec fn all_refs_ok(es: Seq<PlannedExpression>, width: nat) -> bool {
    forall|i: int| 0 <= i < es.len() ==> refs_ok(#[trigger] es[i], width, 0)
}

pub proof fn lemma_eval_list_len(es: Seq<PlannedExpression>, row: Seq<Value>, n: int)
    requires
        0 <= n,
    ensures
        eval_list(es, row, n) matches Ok(vs) ==> vs.len() == n,
    decreases n,
{
    if n > 0 {
        lemma_eval_list_len(es, row, n - 1);
    }
}

pub proof fn lemma_eval_list_err_sticks(es: Seq<PlannedExpression>, row: Seq<Value>, k: int, n: int)
    requires
        0 <= k <= n,
        eval_list(es, row, k) is Err,
    ensures
        eval_list(es, row, n) == eval_list(es, row, k),
    decreases n - k,
{
    if k < n {
        lemma_eval_list_err_sticks(es, row, k, n - 1);
    }
}

pub proof fn lemma_project_err_sticks(es: Seq<PlannedExpression>, rows: Seq<RowView>, k: int, n: int)
    requires
        0 <= k <= n,
        project_rows(es, rows, k) is Err,
    ensures
        project_rows(es, rows, n) == project_rows(es, rows, k),
    decreases n - k,
{
    if k < n {
        lemma_project_err_sticks(es, rows, k, n - 1);
    }
}

/// The values of a list of expressions over a row.
pub fn evaluate_list(exprs: &[PlannedExpression], row: &[Value]) -> (res: Result<Vec<Value>, ExecutionError>)
    requires
        all_refs_ok(exprs@, row@.len()),
    ensures
        match eval_list(exprs@, row@, exprs@.len() as int) {
            Ok(vs) => res matches Ok(v) && v@ == vs,
            Err(e) => res == Err::<Vec<Value>, ExecutionError>(e),
        },
{
    let mut out: Vec<Value> = Vec::new();
    let mut i: usize = 0;
    while i < exprs.len()
        invariant
            i <= exprs@.len(),
            all_refs_ok(exprs@, row@.len()),
            eval_list(exprs@, row@, index_of(i)) == Ok::<Seq<Value>, ExecutionError>(out@),
        decreases exprs@.len() - i,
    {
        assert(refs_ok(exprs@[index_of(i)], row@.len(), 0));
        match evaluate_expression(&exprs[i], row) {
            Ok(v) => out.push(v),
            Err(e) => {
                proof { lemma_eval_list_err_sticks(exprs@, row@, index_of(i) + 1, exprs@.len() as int); }
                return Err(e);
            },
        }
        i = i + 1;
    }
    Ok(out)
}

/// Computes the values of its expressions over every input row.
pub struct ProjectionExecutor<'p> {
    pub plan: &'p ProjectionPlan,
    pub output_schema: &'p Schema,
    pub input: Vec<ExecutorRow>,
    pub output: Vec<ExecutorRow>,
}

impl<'p> ProjectionExecutor<'p> {
    pub fn new(plan: &'p ProjectionPlan, output_schema: &'p Schema, input: Vec<ExecutorRow>) -> (res: Self)
        ensures
            res.plan == plan,
            res.output_schema == output_schema,
            res.input@ == input@,
            res.output@.len() == 0,
    {
        ProjectionExecutor { plan, output_schema, input, output: Vec::new() }
    }

    /// Projects the input rows.
    pub fn init(&mut self, width: Ghost<nat>) -> (res: Result<(), ExecutionError>)
        requires
            rows_wide(rows_of(old(self).input@), width@),
            all_refs_ok(old(self).plan.expressions@, width@),
        ensures
            final(self).plan == old(self).plan,
            match project_rows(old(self).plan.expressions@, rows_of(old(self).input@), old(self).input@.len() as int) {
                Ok(rows) => res is Ok && rows_of(final(self).output@) == rows,
                Err(e) => res == Err::<(), ExecutionError>(e),
            },
    {
        let ghost rows = rows_of(self.input@);
        let ghost es = self.plan.expressions@;
        let mut input: Vec<ExecutorRow> = Vec::new();
        std::mem::swap(&mut input, &mut self.input);
        let mut out: Vec<ExecutorRow> = Vec::new();
        assert(rows_of(out@) =~= Seq::<RowView>::empty());
        let mut rest = input;
        let n: usize = rest.len();
        let mut i: usize = 0;
        while rest.len() > 0
            invariant
                i + rest@.len() == rows.len(),
                n == rows.len(),
                es == self.plan.expressions@,
                self.plan == old(self).plan,
                rows == rows_of(old(self).input@),
                rows_wide(rows, width@),
                all_refs_ok(es, width@),
                rows_of(rest@) == rows.subrange(index_of(i), rows.len() as int),
                project_rows(es, rows, index_of(i)) == Ok::<Seq<RowView>, ExecutionError>(rows_of(out@)),
            decreases rest@.len(),
        {
            let ghost before = rest@;
            let row = rest.remove(0);
            assert(row@ == rows[index_of(i)]) by {
                assert(rows_of(before)[0] == row@);
            }
            match evaluate_list(self.plan.expressions.as_slice(), row.values.as_slice()) {
                Err(e) => {
                    proof { lemma_project_err_sticks(es, rows, index_of(i) + 1, rows.len() as int); }
                    return Err(e);
                },
                Ok(values) => {
                    let ghost prev = rows_of(out@);
                    let ghost vs = values@;
                    out.push(ExecutorRow { rid: None, values });
                    assert(rows_of(out@) =~= prev.push(RowView { rid: None, values: vs }));
                },
            }
            i = i + 1;
            assert(rows_of(rest@) =~= rows.subrange(index_of(i), rows.len() as int)) by {
                assert forall|k: int| 0 <= k < rest@.len() implies #[trigger] rows_of(rest@)[k] == rows[index_of(i) + k] by {
                    assert(rest@[k] == before[k + 1]);
                    assert(rows_of(before)[k + 1] == rows.subrange(index_of(i) - 1, rows.len() as int)[k + 1]);
                }
            }
        }
        self.output = out;
        Ok(())
    }

    /// The next batch of projected rows.
    pub fn next(&mut self, batch_size: usize) -> (res: Result<Vec<ExecutorRow>, ExecutionError>)
        ensures
            final(self).plan == old(self).plan,
            match res {
                Ok(b) => {
                    let k = min_len(batch_size as nat, old(self).output@.len()) as int;
                    &&& rows_of(b@) == rows_of(old(self).output@).take(k)
                    &&& rows_of(final(self).output@) == rows_of(old(self).output@).skip(k)
                },
                Err(_) => false,
            },
    {
        Ok(take_batch(&mut self.output, batch_size))
    }
}

} // verus!
