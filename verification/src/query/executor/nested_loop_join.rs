use vstd::prelude::*;
use crate::catalog::column::Column;
use crate::catalog::schema::Schema;
use crate::common::position::index_of;
use crate::query::executor::engine::{ExecutorRow, RowView, batch_step, concat_batches, lemma_batches_read_all, rows_of, take_batch};
use crate::query::executor::error::ExecutionError;
use crate::query::executor::expression::{eval, filter_join_row, refs_ok, spec_keep};
use crate::query::executor::filter::rows_wide;
use crate::query::executor::join::{build_join_tuple, joined};
use crate::query::planner::expression::PlannedExpression;
use crate::query::planner::plan::NestedLoopJoinPlan;
use crate::query::table_ref::JoinType;
use crate::types::value::Value;

verus! {

/// Whether a pair of rows joins: always for a cross join or a join without
/// predicate, else when the predicate holds.
pub open spec fn join_keeps(pred: Option<PlannedExpression>, jt: JoinType, l: Seq<Value>, r: Seq<Value>) -> Result<bool, ExecutionError> {
    if jt == JoinType::Cross {
        Ok(true)
    } else {
        match pred {
            None => Ok(true),
            Some(p) => spec_keep(eval(p, l, r)),
        }
    }
}

/// The joined rows of the outer row `l` with the first `n` inner rows it
/// joins with.
pub open spec fn inner_matches(plan: NestedLoopJoinPlan, cols: Seq<crate::catalog::column::Column>, l: Seq<Value>, rights: Seq<RowView>, n: int) -> Result<Seq<RowView>, ExecutionError>
    decreases n,
{
    if n <= 0 {
        Ok(Seq::empty())
    } else {
        match inner_matches(plan, cols, l, rights, n - 1) {
            Err(e) => Err(e),
            Ok(prev) => match join_keeps(plan.predicate, plan.join_type, l, rights[n - 1].values) {
                Err(e) => Err(e),
                Ok(true) => Ok(prev.push(joined(cols, l, Some(rights[n - 1].values)))),
                Ok(false) => Ok(prev),
            },
        }
    }
}

/// The rows of the join of the first `n` outer rows with the inner rows: for
/// each outer row its matches, or for a left join without match, the row
/// padded with NULLs.
pub open spec fn join_rows(plan: NestedLoopJoinPlan, cols: Seq<crate::catalog::column::Column>, lefts: Seq<RowView>, rights: Seq<RowView>, n: int) -> Result<Seq<RowView>, ExecutionError>
    decreases n,
{
    if n <= 0 {
        Ok(Seq::empty())
    } else {
        match join_rows(plan, cols, lefts, rights, n - 1) {
            Err(e) => Err(e),
            Ok(prev) => match inner_matches(plan, cols, lefts[n - 1].values, rights, rights.len() as int) {
                Err(e) => Err(e),
                Ok(ms) => if ms.len() == 0 && plan.join_type == JoinType::Left {
                    Ok(prev.push(joined(cols, lefts[n - 1].values, None)))
                } else {
                    Ok(prev + ms)
                },
            },
        }
    }
}

proof fn lemma_inner_err_sticks(plan: NestedLoopJoinPlan, cols: Seq<crate::catalog::column::Column>, l: Seq<Value>, rights: Seq<RowView>, k: int, n: int)
    requires
        0 <= k <= n,
        inner_matches(plan, cols, l, rights, k) is Err,
    ensures
        inner_matches(plan, cols, l, rights, n) == inner_matches(plan, cols, l, rights, k),
    decreases n - k,
{
    if k < n {
        lemma_inner_err_sticks(plan, cols, l, rights, k, n - 1);
    }
}

proof fn lemma_join_err_sticks(plan: NestedLoopJoinPlan, cols: Seq<crate::catalog::column::Column>, lefts: Seq<RowView>, rights: Seq<RowView>, k: int, n: int)
    requires
        0 <= k <= n,
        join_rows(plan, cols, lefts, rights, k) is Err,
    ensures
        join_rows(plan, cols, lefts, rights, n) == join_rows(plan, cols, lefts, rights, k),
    decreases n - k,
{
    if k < n {
        lemma_join_err_sticks(plan, cols, lefts, rights, k, n - 1);
    }
}

proof fn lemma_matches_ignore_outer_kind(p: NestedLoopJoinPlan, q: NestedLoopJoinPlan, cols: Seq<Column>, l: Seq<Value>, rights: Seq<RowView>, n: int)
    requires
        p.predicate == q.predicate,
        p.join_type != JoinType::Cross,
        q.join_type != JoinType::Cross,
    ensures
        inner_matches(p, cols, l, rights, n) == inner_matches(q, cols, l, rights, n),
    decreases n,
{
    if n > 0 {
        lemma_matches_ignore_outer_kind(p, q, cols, l, rights, n - 1);
    }
}

/// A LEFT join gives for an outer row exactly the rows an INNER join gives
/// for it, one per inner row it matches, all of them; only where the INNER
/// join gives none does the LEFT join give the outer row padded with NULLs.
/// Errors are the same.
pub proof fn lemma_left_join_keeps_every_match(plan: NestedLoopJoinPlan, cols: Seq<Column>, l: RowView, rights: Seq<RowView>)
    requires
        plan.join_type == JoinType::Left,
    ensures
        ({
            let inner = NestedLoopJoinPlan { join_type: JoinType::Inner, ..plan };
            match join_rows(inner, cols, seq![l], rights, 1) {
                Err(e) => join_rows(plan, cols, seq![l], rights, 1) == Err::<Seq<RowView>, ExecutionError>(e),
                Ok(rs) => join_rows(plan, cols, seq![l], rights, 1) == Ok::<Seq<RowView>, ExecutionError>(
                    if rs.len() == 0 { seq![joined(cols, l.values, None)] } else { rs },
                ),
            }
        }),
{
    let inner = NestedLoopJoinPlan { join_type: JoinType::Inner, ..plan };
    lemma_matches_ignore_outer_kind(plan, inner, cols, l.values, rights, rights.len() as int);
    assert(seq![l][0] == l);
    assert(join_rows(plan, cols, seq![l], rights, 0) == Ok::<Seq<RowView>, ExecutionError>(Seq::empty()));
    assert(join_rows(inner, cols, seq![l], rights, 0) == Ok::<Seq<RowView>, ExecutionError>(Seq::empty()));
    if let Ok(ms) = inner_matches(plan, cols, l.values, rights, rights.len() as int) {
        assert(Seq::<RowView>::empty() + ms =~= ms);
        assert(Seq::<RowView>::empty().push(joined(cols, l.values, None)) =~= seq![joined(cols, l.values, None)]);
    }
}

/// The inner rows that outer row `l` joins with, in their order.
pub open spec fn matching_rights(plan: NestedLoopJoinPlan, l: Seq<Value>, rights: Seq<RowView>) -> Seq<RowView> {
    rights.filter(|r: RowView| join_keeps(plan.predicate, plan.join_type, l, r.values) == Ok::<bool, ExecutionError>(true))
}

proof fn lemma_matches_are_filtered(plan: NestedLoopJoinPlan, cols: Seq<Column>, l: Seq<Value>, rights: Seq<RowView>, n: int)
    requires
        0 <= n <= rights.len(),
        forall|k: int| 0 <= k < rights.len() ==> #[trigger] join_keeps(plan.predicate, plan.join_type, l, rights[k].values) is Ok,
    ensures
        inner_matches(plan, cols, l, rights, n) == Ok::<Seq<RowView>, ExecutionError>(
            matching_rights(plan, l, rights.take(n)).map_values(|r: RowView| joined(cols, l, Some(r.values))),
        ),
    decreases n,
{
    let pred = |r: RowView| join_keeps(plan.predicate, plan.join_type, l, r.values) == Ok::<bool, ExecutionError>(true);
    let f = |r: RowView| joined(cols, l, Some(r.values));
    reveal(Seq::filter);
    if n == 0 {
        assert(rights.take(0) =~= Seq::<RowView>::empty());
        assert(matching_rights(plan, l, rights.take(0)) =~= Seq::<RowView>::empty());
        assert(matching_rights(plan, l, rights.take(0)).map_values(f) =~= Seq::<RowView>::empty());
    } else {
        lemma_matches_are_filtered(plan, cols, l, rights, n - 1);
        let t = rights.take(n);
        assert(t.drop_last() =~= rights.take(n - 1));
        assert(t.last() == rights[n - 1]);
        assert(join_keeps(plan.predicate, plan.join_type, l, rights[n - 1].values) is Ok);
        let before = rights.take(n - 1).filter(pred);
        if pred(rights[n - 1]) {
            assert(t.filter(pred) == before.push(rights[n - 1]));
            assert(before.push(rights[n - 1]).map_values(f) =~= before.map_values(f).push(f(rights[n - 1])));
        } else {
            assert(t.filter(pred) == before);
        }
    }
}

/// The rows an INNER or CROSS join gives for an outer row are its joins
/// with every inner row it matches (for CROSS, every inner row), in the
/// inner rows' order, and nothing else.
pub proof fn lemma_inner_join_row(plan: NestedLoopJoinPlan, cols: Seq<Column>, l: RowView, rights: Seq<RowView>)
    requires
        plan.join_type != JoinType::Left,
        forall|k: int| 0 <= k < rights.len() ==> #[trigger] join_keeps(plan.predicate, plan.join_type, l.values, rights[k].values) is Ok,
    ensures
        join_rows(plan, cols, seq![l], rights, 1) == Ok::<Seq<RowView>, ExecutionError>(
            matching_rights(plan, l.values, rights).map_values(|r: RowView| joined(cols, l.values, Some(r.values))),
        ),
        plan.join_type == JoinType::Cross ==> matching_rights(plan, l.values, rights) == rights,
{
    lemma_matches_are_filtered(plan, cols, l.values, rights, rights.len() as int);
    assert(rights.take(rights.len() as int) =~= rights);
    assert(seq![l][0] == l);
    assert(join_rows(plan, cols, seq![l], rights, 0) == Ok::<Seq<RowView>, ExecutionError>(Seq::empty()));
    let ms = matching_rights(plan, l.values, rights).map_values(|r: RowView| joined(cols, l.values, Some(r.values)));
    assert(Seq::<RowView>::empty() + ms =~= ms);
    if plan.join_type == JoinType::Cross {
        lemma_filter_all(plan, l.values, rights, rights.len() as int);
        assert(rights.take(rights.len() as int) =~= rights);
    }
}

proof fn lemma_filter_all(plan: NestedLoopJoinPlan, l: Seq<Value>, rights: Seq<RowView>, n: int)
    requires
        plan.join_type == JoinType::Cross,
        0 <= n <= rights.len(),
    ensures
        matching_rights(plan, l, rights.take(n)) == rights.take(n),
    decreases n,
{
    reveal(Seq::filter);
    if n == 0 {
        assert(rights.take(0) =~= Seq::<RowView>::empty());
    } else {
        lemma_filter_all(plan, l, rights, n - 1);
        let t = rights.take(n);
        assert(t.drop_last() =~= rights.take(n - 1));
        assert(rights.take(n - 1).push(t.last()) =~= t);
    }
}

/// The rows of a join are those of its outer rows, one outer row after
/// another: the first `n` outer rows give what the first `n - 1` give, then
/// what the `n`-th gives alone.
pub proof fn lemma_join_rows_per_outer_row(plan: NestedLoopJoinPlan, cols: Seq<Column>, lefts: Seq<RowView>, rights: Seq<RowView>, n: int)
    requires
        0 < n <= lefts.len(),
    ensures
        join_rows(plan, cols, lefts, rights, n) == (match join_rows(plan, cols, lefts, rights, n - 1) {
            Err(e) => Err::<Seq<RowView>, ExecutionError>(e),
            Ok(before) => match join_rows(plan, cols, seq![lefts[n - 1]], rights, 1) {
                Err(e) => Err::<Seq<RowView>, ExecutionError>(e),
                Ok(these) => Ok::<Seq<RowView>, ExecutionError>(before + these),
            },
        }),
{
    let one = seq![lefts[n - 1]];
    assert(one[0] == lefts[n - 1]);
    assert(join_rows(plan, cols, one, rights, 0) == Ok::<Seq<RowView>, ExecutionError>(Seq::empty()));
    if let Ok(ms) = inner_matches(plan, cols, lefts[n - 1].values, rights, rights.len() as int) {
        assert(Seq::<RowView>::empty() + ms =~= ms);
        if let Ok(before) = join_rows(plan, cols, lefts, rights, n - 1) {
            assert(before.push(joined(cols, lefts[n - 1].values, None)) =~= before + Seq::<RowView>::empty().push(joined(cols, lefts[n - 1].values, None)));
        }
    }
}

/// Inputs a join can run over: rows of widths `lw` and `rw`, the left ones
/// no wider than the output, and a predicate that refers to their columns.
pub open spec fn inputs_fit(plan: NestedLoopJoinPlan, cols: Seq<Column>, lefts: Seq<RowView>, rights: Seq<RowView>, lw: nat, rw: nat) -> bool {
    &&& rows_wide(lefts, lw)
    &&& rows_wide(rights, rw)
    &&& lw <= cols.len()
    &&& plan.join_type != JoinType::Cross ==> (plan.predicate matches Some(p) ==> refs_ok(p, lw, rw))
}

/// Reading a join: `init` leaves the joined rows `rows` to hand out; the
/// batches that `next(n)`, `n >= 1`, then hands out one after another until
/// the first empty one are those rows, in order, `n` to a batch but the last,
/// and nothing is left.
pub proof fn lemma_join_read_in_batches(rows: Seq<RowView>, states: Seq<Seq<RowView>>, batches: Seq<Seq<RowView>>, n: nat)
    requires
        n > 0,
        batches.len() > 0,
        states.len() == batches.len() + 1,
        states[0] == rows,
        forall|i: int| 0 <= i < batches.len() ==> #[trigger] batch_step(states[i], n, batches[i], states[i + 1]),
        forall|i: int| 0 <= i < batches.len() - 1 ==> (#[trigger] batches[i]).len() > 0,
        batches.last().len() == 0,
    ensures
        concat_batches(batches) == rows,
        states.last().len() == 0,
        forall|i: int| 0 <= i < batches.len() - 2 ==> (#[trigger] batches[i]).len() == n,
{
    lemma_batches_read_all(states, batches, n);
}

/// Joins every outer row with every inner row.
pub struct NestedLoopJoinExecutor<'p> {
    pub plan: &'p NestedLoopJoinPlan,
    pub output_schema: &'p Schema,
    pub left: Vec<ExecutorRow>,
    pub right: Vec<ExecutorRow>,
    pub output: Vec<ExecutorRow>,
}

impl<'p> NestedLoopJoinExecutor<'p> {
    pub fn new(plan: &'p NestedLoopJoinPlan, output_schema: &'p Schema, left: Vec<ExecutorRow>, right: Vec<ExecutorRow>) -> (res: Self)
        ensures
            res.plan == plan,
            res.output_schema == output_schema,
            res.left@ == left@,
            res.right@ == right@,
            res.output@.len() == 0,
    {
        NestedLoopJoinExecutor { plan, output_schema, left, right, output: Vec::new() }
    }

    /// Whether a pair of rows joins.
    pub fn keep_row(&self, left: &ExecutorRow, right: &ExecutorRow) -> (res: Result<bool, ExecutionError>)
        requires
            self.plan.join_type != JoinType::Cross ==> (self.plan.predicate matches Some(p) ==> refs_ok(p, left.values@.len(), right.values@.len())),
        ensures
            res == join_keeps(self.plan.predicate, self.plan.join_type, left.values@, right.values@),
    {
        if self.plan.join_type == JoinType::Cross {
            return Ok(true);
        }
        match &self.plan.predicate {
            None => Ok(true),
            Some(predicate) => filter_join_row(predicate, left.values.as_slice(), right.values.as_slice()),
        }
    }

    /// Joins the input rows: every row of the left input with each row of
    /// the right one it is kept with, or, for a LEFT join, with NULLs when
    /// none is.
    pub fn init(&mut self) -> (res: Result<(), ExecutionError>)
        requires
            exists|lw: nat, rw: nat| #[trigger] inputs_fit(*old(self).plan, old(self).output_schema.columns@, rows_of(old(self).left@), rows_of(old(self).right@), lw, rw),
        ensures
            final(self).plan == old(self).plan,
            match join_rows(*old(self).plan, old(self).output_schema.columns@, rows_of(old(self).left@), rows_of(old(self).right@), old(self).left@.len() as int) {
                Ok(rows) => res is Ok && rows_of(final(self).output@) == rows,
                Err(e) => res == Err::<(), ExecutionError>(e),
            },
    {
        let ghost (lw, rw) = choose|lw: nat, rw: nat| #[trigger] inputs_fit(*self.plan, self.output_schema.columns@, rows_of(self.left@), rows_of(self.right@), lw, rw);
        self.join_inputs(Ghost(lw), Ghost(rw))
    }

    fn join_inputs(&mut self, lw: Ghost<nat>, rw: Ghost<nat>) -> (res: Result<(), ExecutionError>)
        requires
            rows_wide(rows_of(old(self).left@), lw@),
            rows_wide(rows_of(old(self).right@), rw@),
            lw@ <= old(self).output_schema.columns@.len(),
            old(self).plan.join_type != JoinType::Cross ==> (old(self).plan.predicate matches Some(p) ==> refs_ok(p, lw@, rw@)),
        ensures
            final(self).plan == old(self).plan,
            match join_rows(*old(self).plan, old(self).output_schema.columns@, rows_of(old(self).left@), rows_of(old(self).right@), old(self).left@.len() as int) {
                Ok(rows) => res is Ok && rows_of(final(self).output@) == rows,
                Err(e) => res == Err::<(), ExecutionError>(e),
            },
    {
        let ghost lefts = rows_of(self.left@);
        let ghost rights = rows_of(self.right@);
        let ghost cols = self.output_schema.columns@;
        let mut out: Vec<ExecutorRow> = Vec::new();
        assert(rows_of(out@) =~= Seq::<RowView>::empty());
        let mut i: usize = 0;
        while i < self.left.len()
            invariant
                i <= self.left@.len(),
                *self == *old(self),
                lefts == rows_of(self.left@),
                rights == rows_of(self.right@),
                cols == self.output_schema.columns@,
                rows_wide(lefts, lw@),
                rows_wide(rights, rw@),
                lw@ <= cols.len(),
                self.plan.join_type != JoinType::Cross ==> (self.plan.predicate matches Some(p) ==> refs_ok(p, lw@, rw@)),
                join_rows(*self.plan, cols, lefts, rights, index_of(i)) == Ok::<Seq<RowView>, ExecutionError>(rows_of(out@)),
            decreases self.left@.len() - i,
        {
            let l = &self.left[i];
            assert(lefts[index_of(i)] == l@);
            let ghost before = rows_of(out@);
            let mut matches: Vec<ExecutorRow> = Vec::new();
            assert(rows_of(matches@) =~= Seq::<RowView>::empty());
            let mut j: usize = 0;
            while j < self.right.len()
                invariant
                    j <= self.right@.len(),
                    *self == *old(self),
                    i < self.left@.len(),
                    *l == self.left@[index_of(i)],
                    lefts == rows_of(self.left@),
                    rights == rows_of(self.right@),
                    cols == self.output_schema.columns@,
                    rows_wide(lefts, lw@),
                    rows_wide(rights, rw@),
                    self.plan.join_type != JoinType::Cross ==> (self.plan.predicate matches Some(p) ==> refs_ok(p, lw@, rw@)),
                    inner_matches(*self.plan, cols, l.values@, rights, index_of(j)) == Ok::<Seq<RowView>, ExecutionError>(rows_of(matches@)),
                    join_rows(*self.plan, cols, lefts, rights, index_of(i)) == Ok::<Seq<RowView>, ExecutionError>(before),
                decreases self.right@.len() - j,
            {
                let r = &self.right[j];
                assert(rights[index_of(j)] == r@);
                assert(l.values@.len() == lw@ && r.values@.len() == rw@) by {
                    assert(lefts[index_of(i)].values.len() == lw@);
                    assert(rights[index_of(j)].values.len() == rw@);
                }
                match self.keep_row(l, r) {
                    Err(e) => {
                        proof {
                            lemma_inner_err_sticks(*self.plan, cols, l.values@, rights, index_of(j) + 1, rights.len() as int);
                            lemma_join_err_sticks(*self.plan, cols, lefts, rights, index_of(i) + 1, lefts.len() as int);
                        }
                        return Err(e);
                    },
                    Ok(true) => {
                        let ghost prev = rows_of(matches@);
                        let row = build_join_tuple(self.output_schema, l, Some(r));
                        matches.push(row);
                        assert(rows_of(matches@) =~= prev.push(joined(cols, l.values@, Some(r.values@))));
                    },
                    Ok(false) => {},
                }
                j = j + 1;
            }
            if matches.len() == 0 && self.plan.join_type == JoinType::Left {
                assert(l.values@.len() == lw@) by {
                    assert(lefts[index_of(i)].values.len() == lw@);
                }
                let row = build_join_tuple(self.output_schema, l, None);
                out.push(row);
                assert(rows_of(out@) =~= before.push(joined(cols, l.values@, None)));
            } else {
                let ghost ms = rows_of(matches@);
                out.append(&mut matches);
                assert(rows_of(out@) =~= before + ms);
            }
            i = i + 1;
        }
        self.output = out;
        Ok(())
    }

    /// The next batch of joined rows.
    pub fn next(&mut self, batch_size: usize) -> (res: Result<Vec<ExecutorRow>, ExecutionError>)
        ensures
            final(self).plan == old(self).plan,
            match res {
                Ok(b) => batch_step(rows_of(old(self).output@), batch_size as nat, rows_of(b@), rows_of(final(self).output@)),
                Err(_) => false,
            },
    {
        Ok(take_batch(&mut self.output, batch_size))
    }
}

} // verus!
