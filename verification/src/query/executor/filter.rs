use vstd::prelude::*;
use crate::catalog::schema::Schema;
use crate::common::position::index_of;
use crate::query::executor::engine::{ExecutorRow, RowView, min_len, rows_of, take_batch};
use crate::query::executor::error::ExecutionError;
use crate::query::executor::expression::{eval, filter_keep_row, refs_ok, spec_keep};
use crate::query::planner::expression::PlannedExpression;
use crate::query::planner::plan::FilterPlan;
use crate::types::value::Value;

verus! {

/// The rows among the first `n` for which the predicate holds (is TRUE);
/// the first error in evaluating it is the outcome.
pub open spec fn filter_rows(pred: PlannedExpression, rows: Seq<RowView>, n: int) -> Result<Seq<RowView>, ExecutionError>
    decreases n,
{
    if n <= 0 {
        Ok(Seq::empty())
    } else {
        match filter_rows(pred, rows, n - 1) {
            Err(e) => Err(e),
            Ok(prev) => match spec_keep(eval(pred, rows[n - 1].values, Seq::<Value>::empty())) {
                Err(e) => Err(e),
                Ok(true) => Ok(prev.push(rows[n - 1])),
                Ok(false) => Ok(prev),
            },
        }
    }
}

/// Every row is `width` values wide.
pub open spec fn rows_wide(rows: Seq<RowView>, width: nat) -> bool {
    forall|i: int| 0 <= i < rows.len() ==> (#[trigger] rows[i]).values.len() == width
}

pub proof fn lemma_filter_err_sticks(pred: PlannedExpression, rows: Seq<RowView>, k: int, n: int)
    requires
        0 <= k <= n,
        filter_rows(pred, rows, k) is Err,
    ensures
        filter_rows(pred, rows, n) == filter_rows(pred, rows, k),
    decreases n - k,
{
    if k < n {
        lemma_filter_err_sticks(pred, rows, k, n - 1);
    }
}

/// Keeps the rows of its input for which its predicate holds.
pub struct FilterExecutor<'p> {
    pub plan: &'p FilterPlan,
    pub output_schema: &'p Schema,
    pub input: Vec<ExecutorRow>,
    pub output: Vec<ExecutorRow>,
}

impl<'p> FilterExecutor<'p> {
    pub fn new(plan: &'p FilterPlan, output_schema: &'p Schema, input: Vec<ExecutorRow>) -> (res: Self)
        ensures
            res.plan == plan,
            res.output_schema == output_schema,
            res.input@ == input@,
            res.output@.len() == 0,
    {
        FilterExecutor { plan, output_schema, input, output: Vec::new() }
    }

    /// Filters the input rows.
    pub fn init(&mut self, width: Ghost<nat>) -> (res: Result<(), ExecutionError>)
        requires
            rows_wide(rows_of(old(self).input@), width@),
            refs_ok(old(self).plan.predicate, width@, 0),
        ensures
            final(self).plan == old(self).plan,
            match filter_rows(old(self).plan.predicate, rows_of(old(self).input@), old(self).input@.len() as int) {
                Ok(rows) => res is Ok && rows_of(final(self).output@) == rows,
                Err(e) => res == Err::<(), ExecutionError>(e),
            },
    {
        let ghost rows = rows_of(self.input@);
        let ghost pred = self.plan.predicate;
        let mut input: Vec<ExecutorRow> = Vec::new();
        std::mem::swap(&mut input, &mut self.input);
        let mut out: Vec<ExecutorRow> = Vec::new();
        assert(rows_of(out@) =~= Seq::<RowView>::empty());
        let mut rest = input;
        let n: usize = rest.len();
        let mut i: usize = 0;
        while rest.len() > 0
            invariant
                i + rest@.len() == rows.len(),
                n == rows.len(),
                pred == self.plan.predicate,
                self.plan == old(self).plan,
                rows == rows_of(old(self).input@),
                rows_wide(rows, width@),
                refs_ok(pred, width@, 0),
                rows_of(rest@) == rows.subrange(index_of(i), rows.len() as int),
                filter_rows(pred, rows, index_of(i)) == Ok::<Seq<RowView>, ExecutionError>(rows_of(out@)),
            decreases rest@.len(),
        {
            let ghost before = rest@;
            let row = rest.remove(0);
            assert(row@ == rows[index_of(i)]) by {
                assert(rows_of(before)[0] == row@);
            }
            match filter_keep_row(&self.plan.predicate, row.values.as_slice()) {
                Err(e) => {
                    proof { lemma_filter_err_sticks(pred, rows, index_of(i) + 1, rows.len() as int); }
                    return Err(e);
                },
                Ok(keep) => {
                    if keep {
                        let ghost prev = rows_of(out@);
                        out.push(row);
                        assert(rows_of(out@) =~= prev.push(rows[index_of(i)]));
                    }
                },
            }
            i = i + 1;
            assert(rows_of(rest@) =~= rows.subrange(index_of(i), rows.len() as int)) by {
                assert forall|k: int| 0 <= k < rest@.len() implies #[trigger] rows_of(rest@)[k] == rows[index_of(i) + k] by {
                    assert(rest@[k] == before[k + 1]);
                    assert(rows_of(before)[k + 1] == rows.subrange(index_of(i) - 1, rows.len() as int)[k + 1]);
                }
            }
        }
        self.output = out;
        Ok(())
    }

    /// The next batch of rows kept.
    pub fn next(&mut self, batch_size: usize) -> (res: Result<Vec<ExecutorRow>, ExecutionError>)
        ensures
            final(self).plan == old(self).plan,
            match res {
                Ok(b) => {
                    let k = min_len(batch_size as nat, old(self).output@.len()) as int;
                    &&& rows_of(b@) == rows_of(old(self).output@).take(k)
                    &&& rows_of(final(self).output@) == rows_of(old(self).output@).skip(k)
                },
                Err(_) => false,
            },
    {
        Ok(take_batch(&mut self.output, batch_size))
    }
}

} // verus!
