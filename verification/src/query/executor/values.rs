use vstd::prelude::*;
use crate::catalog::schema::Schema;
use crate::common::position::index_of;
use crate::query::executor::engine::{ExecutorRow, RowView, min_len, rows_of, take_batch};
use crate::query::executor::error::ExecutionError;
use crate::query::executor::projection::{all_refs_ok, eval_list, evaluate_list};
use crate::query::planner::expression::PlannedExpression;
use crate::query::planner::plan::{ValuesPlan, rows_view};
use crate::types::value::Value;

verus! {

/// The first `n` rows of a VALUES list, each the values of its expressions.
pub open spec fn values_rows(rows: Seq<Seq<PlannedExpression>>, n: int) -> Result<Seq<RowView>, ExecutionError>
    decreases n,
{
    if n <= 0 {
        Ok(Seq::empty())
    } else {
        match values_rows(rows, n - 1) {
            Err(e) => Err(e),
            Ok(prev) => match eval_list(rows[n - 1], Seq::<Value>::empty(), rows[n - 1].len() as int) {
                Err(e) => Err(e),
                Ok(vs) => Ok(prev.push(RowView { rid: None, values: vs })),
            },
        }
    }
}

pub proof fn lemma_values_err_sticks(rows: Seq<Seq<PlannedExpression>>, k: int, n: int)
    requires
        0 <= k <= n,
        values_rows(rows, k) is Err,
    ensures
        values_rows(rows, n) == values_rows(rows, k),
    decreases n - k,
{
    if k < n {
        lemma_values_err_sticks(rows, k, n - 1);
    }
}

/// Produces the rows of a VALUES list.
pub struct ValuesExecutor<'p> {
    pub plan: &'p ValuesPlan,
    pub output_schema: &'p Schema,
    pub output: Vec<ExecutorRow>,
}

impl<'p> ValuesExecutor<'p> {
    pub fn new(plan: &'p ValuesPlan, output_schema: &'p Schema) -> (res: Self)
        ensures
            res.plan == plan,
            res.output_schema == output_schema,
            res.output@.len() == 0,
    {
        ValuesExecutor { plan, output_schema, output: Vec::new() }
    }

    /// Evaluates every row; none refers to a column.
    pub fn init(&mut self) -> (res: Result<(), ExecutionError>)
        requires
            forall|r: int| 0 <= r < old(self).plan.rows@.len() ==> all_refs_ok((#[trigger] old(self).plan.rows@[r])@, 0),
        ensures
            final(self).plan == old(self).plan,
            match values_rows(rows_view(old(self).plan.rows@), old(self).plan.rows@.len() as int) {
                Ok(rows) => res is Ok && rows_of(final(self).output@) == rows,
                Err(e) => res == Err::<(), ExecutionError>(e),
            },
    {
        let ghost rs = rows_view(self.plan.rows@);
        let empty: Vec<Value> = Vec::new();
        let mut out: Vec<ExecutorRow> = Vec::new();
        assert(rows_of(out@) =~= Seq::<RowView>::empty());
        let mut i: usize = 0;
        while i < self.plan.rows.len()
            invariant
                i <= self.plan.rows@.len(),
                rs == rows_view(self.plan.rows@),
                self.plan == old(self).plan,
                empty@ == Seq::<Value>::empty(),
                forall|r: int| 0 <= r < self.plan.rows@.len() ==> all_refs_ok((#[trigger] self.plan.rows@[r])@, 0),
                values_rows(rs, index_of(i)) == Ok::<Seq<RowView>, ExecutionError>(rows_of(out@)),
            decreases self.plan.rows@.len() - i,
        {
            assert(rs[index_of(i)] == self.plan.rows@[index_of(i)]@);
            assert(all_refs_ok(self.plan.rows@[index_of(i)]@, 0));
            match evaluate_list(self.plan.rows[i].as_slice(), empty.as_slice()) {
                Err(e) => {
                    proof { lemma_values_err_sticks(rs, index_of(i) + 1, rs.len() as int); }
                    return Err(e);
                },
                Ok(values) => {
                    let ghost prev = rows_of(out@);
                    let ghost vs = values@;
                    out.push(ExecutorRow { rid: None, values });
                    assert(rows_of(out@) =~= prev.push(RowView { rid: None, values: vs }));
                },
            }
            i = i + 1;
        }
        self.output = out;
        Ok(())
    }

    /// The next batch of rows.
    pub fn next(&mut self, batch_size: usize) -> (res: Result<Vec<ExecutorRow>, ExecutionError>)
        ensures
            final(self).plan == old(self).plan,
            match res {
                Ok(b) => {
                    let k = min_len(batch_size as nat, old(self).output@.len()) as int;
                    &&& rows_of(b@) == rows_of(old(self).output@).take(k)
                    &&& rows_of(final(self).output@) == rows_of(old(self).output@).skip(k)
                },
                Err(_) => false,
            },
    {
        Ok(take_batch(&mut self.output, batch_size))
    }
}

} // verus!
