use vstd::prelude::*;
use crate::catalog::catalog::Catalog;
use crate::catalog::column::Column;
use crate::catalog::error::{CatalogError, TableIdentifier};
use crate::catalog::schema::Schema;
use crate::common::position::index_of;
use crate::query::executor::engine::{ExecutorRow, RowView, res_view, rows_of};
use crate::query::executor::error::ExecutionError;
use crate::query::executor::seq_scan::{live_rows, scan_output};
use crate::query::planner::plan::InsertPlan;
use crate::storage::tuple::{Tuple, TupleMeta};
use crate::types::value::Value;

verus! {

/// A row of NULLs, one of each column's type.
pub open spec fn null_row(cols: Seq<Column>) -> Seq<Value> {
    Seq::new(cols.len(), |c: int| Value::Null(cols[c].sql_type))
}

/// `init` with the first `n` values written to their target columns, in
/// order.
pub open spec fn place(init: Seq<Value>, targets: Seq<usize>, vals: Seq<Value>, n: int) -> Seq<Value>
    decreases n,
{
    if n <= 0 {
        init
    } else {
        place(init, targets, vals, n - 1).update(targets[n - 1] as int, vals[n - 1])
    }
}

pub proof fn lemma_place_len(init: Seq<Value>, targets: Seq<usize>, vals: Seq<Value>, n: int)
    requires
        n <= targets.len(),
        forall|i: int| 0 <= i < targets.len() ==> (#[trigger] targets[i]) < init.len(),
    ensures
        place(init, targets, vals, n).len() == init.len(),
    decreases n,
{
    if n > 0 {
        lemma_place_len(init, targets, vals, n - 1);
    }
}

/// The tuple an INSERT stores for a row of values: each value in its target
/// column, NULL elsewhere.
pub open spec fn inserted_values(plan: InsertPlan, vals: Seq<Value>) -> Seq<Value> {
    let n = if vals.len() <= plan.target_col_idxs@.len() { vals.len() } else { plan.target_col_idxs@.len() };
    place(null_row(plan.table_schema.columns@), plan.target_col_idxs@, vals, n as int)
}

/// `after` is `before` with one live tuple appended per row, in order.
pub open spec fn appended(before: Seq<(TupleMeta, Tuple)>, after: Seq<(TupleMeta, Tuple)>, plan: InsertPlan, rows: Seq<RowView>) -> bool {
    &&& after.len() == before.len() + rows.len()
    &&& forall|r: int| 0 <= r < before.len() ==> #[trigger] after[r] == before[r]
    &&& forall|k: int| 0 <= k < rows.len() ==> {
        &&& (#[trigger] after[before.len() + k]).0 == TupleMeta { ts: 0, is_deleted: false }
        &&& after[before.len() + k].1.values@ == inserted_values(plan, rows[k].values)
    }
}

/// The single row a statement that changes rows produces: how many it
/// changed.
pub open spec fn count_row(n: int) -> Seq<RowView> {
    seq![RowView { rid: None, values: seq![Value::Integer(n as i32)] }]
}

/// An INSERT plan fits the catalog: its target columns are columns of the
/// table, whose schema it carries.
pub open spec fn insert_fits(cat: Catalog, plan: InsertPlan) -> bool {
    &&& forall|i: int| 0 <= i < plan.target_col_idxs@.len() ==> (#[trigger] plan.target_col_idxs@[i]) < plan.table_schema.columns@.len()
    &&& plan.table_oid < cat.tables@.len() ==> plan.table_schema.columns@.len() == cat.tables@[plan.table_oid as int].schema.columns@.len()
}

/// What running an INSERT over `rows` does: where its table is missing, an
/// error and no change; else every row stored, in order, and their count
/// returned.
pub open spec fn insert_effect(before_cat: Catalog, after_cat: Catalog, plan: InsertPlan, rows: Seq<RowView>, res: Result<Seq<RowView>, ExecutionError>) -> bool {
    if plan.table_oid >= before_cat.tables@.len() {
        &&& res == Err::<Seq<RowView>, ExecutionError>(ExecutionError::Catalog(CatalogError::TableNotFound(TableIdentifier::Oid(plan.table_oid))))
        &&& after_cat == before_cat
    } else {
        let oid = plan.table_oid as int;
        let before = before_cat.tables@[oid];
        let after = after_cat.tables@[oid];
        &&& res == Ok::<Seq<RowView>, ExecutionError>(count_row(rows.len() as int))
        &&& after_cat.indexes@ == before_cat.indexes@
        &&& after_cat.tables@.len() == before_cat.tables@.len()
        &&& forall|i: int| 0 <= i < before_cat.tables@.len() && i != oid ==> #[trigger] after_cat.tables@[i] == before_cat.tables@[i]
        &&& after.schema == before.schema && after.name == before.name && after.table_oid == before.table_oid
        &&& appended(before.table_heap.tuples@, after.table_heap.tuples@, plan, rows)
    }
}

/// Stores its input rows in a table.
pub struct InsertExecutor<'p> {
    pub plan: &'p InsertPlan,
    pub output_schema: &'p Schema,
    pub input: Vec<ExecutorRow>,
    pub done: bool,
}

impl<'p> InsertExecutor<'p> {
    pub fn new(plan: &'p InsertPlan, output_schema: &'p Schema, input: Vec<ExecutorRow>) -> (res: Self)
        ensures
            res.plan == plan,
            res.output_schema == output_schema,
            res.input@ == input@,
            !res.done,
    {
        InsertExecutor { plan, output_schema, input, done: false }
    }

    /// The tuple stored for a row.
    pub fn build_tuple(&self, row: &ExecutorRow) -> (res: Tuple)
        requires
            insert_fits_plan(*self.plan),
        ensures
            res.values@ == inserted_values(*self.plan, row.values@),
    {
        let cols = &self.plan.table_schema.columns;
        let mut values: Vec<Value> = Vec::new();
        let mut c: usize = 0;
        while c < cols.len()
            invariant
                c <= cols@.len(),
                values@ == null_row(cols@).subrange(0, index_of(c)),
            decreases cols@.len() - c,
        {
            values.push(Value::Null(cols[c].sql_type()));
            c = c + 1;
            assert(values@ =~= null_row(cols@).subrange(0, index_of(c)));
        }
        assert(values@ =~= null_row(cols@));
        let targets = &self.plan.target_col_idxs;
        let n: usize = if row.values.len() <= targets.len() { row.values.len() } else { targets.len() };
        let mut i: usize = 0;
        while i < n
            invariant
                i <= n,
                n <= row.values@.len(),
                n <= targets@.len(),
                n == (if row.values@.len() <= targets@.len() { row.values@.len() } else { targets@.len() }),
                insert_fits_plan(*self.plan),
                *targets == self.plan.target_col_idxs,
                values@.len() == cols@.len(),
                *cols == self.plan.table_schema.columns,
                values@ == place(null_row(cols@), targets@, row.values@, index_of(i)),
            decreases n - i,
        {
            assert(targets@[index_of(i)] < cols@.len());
            values.set(targets[i], row.values[i].clone());
            i = i + 1;
        }
        Tuple::from_values(values.as_slice(), &self.plan.table_schema)
    }

    /// Stores every input row, once; later calls produce nothing.
    pub fn next(&mut self, catalog: &mut Catalog, batch_size: usize) -> (res: Result<Vec<ExecutorRow>, ExecutionError>)
        requires
            old(catalog).wf(),
            insert_fits(*old(catalog), *old(self).plan),
            old(self).input@.len() <= i32::MAX,
        ensures
            final(catalog).wf(),
            final(self).plan == old(self).plan,
            final(self).input@ == old(self).input@,
            final(self).done,
            old(self).done ==> (res matches Ok(b) && b@.len() == 0 && *final(catalog) == *old(catalog)),
            !old(self).done ==> insert_effect(*old(catalog), *final(catalog), *old(self).plan, rows_of(old(self).input@), res_view(res)),
    {
        if self.done {
            return Ok(Vec::new());
        }
        self.done = true;
        let oid = self.plan.table_oid;
        if (oid as usize) >= catalog.tables.len() {
            return Err(ExecutionError::Catalog(CatalogError::TableNotFound(TableIdentifier::Oid(oid))));
        }
        let ghost rows = rows_of(self.input@);
        let ghost before = catalog.tables@[oid as int];
        let ghost start = *catalog;
        let mut count: i32 = 0;
        let mut i: usize = 0;
        while i < self.input.len()
            invariant
                i <= self.input@.len(),
                self.input@.len() <= i32::MAX,
                count == i,
                rows == rows_of(self.input@),
                oid == self.plan.table_oid,
                (oid as int) < catalog.tables@.len(),
                catalog.wf(),
                insert_fits(*catalog, *self.plan),
                insert_fits_plan(*self.plan),
                catalog.indexes@ == start.indexes@,
                catalog.tables@.len() == start.tables@.len(),
                before == start.tables@[oid as int],
                forall|t: int| 0 <= t < start.tables@.len() && t != oid ==> #[trigger] catalog.tables@[t] == start.tables@[t],
                catalog.tables@[oid as int].schema == before.schema,
                catalog.tables@[oid as int].name == before.name,
                catalog.tables@[oid as int].table_oid == before.table_oid,
                appended(before.table_heap.tuples@, catalog.tables@[oid as int].table_heap.tuples@, *self.plan, rows.subrange(0, index_of(i))),
            decreases self.input@.len() - i,
        {
            let tuple = self.build_tuple(&self.input[i]);
            proof {
                let vals = self.input@[index_of(i)].values@;
                let n = if vals.len() <= self.plan.target_col_idxs@.len() { vals.len() } else { self.plan.target_col_idxs@.len() };
                lemma_place_len(null_row(self.plan.table_schema.columns@), self.plan.target_col_idxs@, vals, n as int);
            }
            let ghost pre = catalog.tables@[oid as int].table_heap.tuples@;
            let _ = catalog.insert_tuple(oid, &TupleMeta::new(0, false), &tuple);
            proof {
                let post = catalog.tables@[oid as int].table_heap.tuples@;
                let done_rows = rows.subrange(0, index_of(i) + 1);
                assert forall|k: int| 0 <= k < done_rows.len() implies {
                    &&& (#[trigger] post[before.table_heap.tuples@.len() + k]).0 == TupleMeta { ts: 0, is_deleted: false }
                    &&& post[before.table_heap.tuples@.len() + k].1.values@ == inserted_values(*self.plan, done_rows[k].values)
                } by {
                    if k < index_of(i) {
                        assert(post[before.table_heap.tuples@.len() + k] == pre[before.table_heap.tuples@.len() + k]);
                        assert(done_rows[k] == rows.subrange(0, index_of(i))[k]);
                    } else {
                        assert(rows[index_of(i)] == self.input@[index_of(i)]@);
                    }
                }
                assert forall|r: int| 0 <= r < before.table_heap.tuples@.len() implies #[trigger] post[r] == before.table_heap.tuples@[r] by {
                    assert(post[r] == pre[r]);
                }
            }
            count = count + 1;
            i = i + 1;
        }
        assert(rows.subrange(0, index_of(i)) =~= rows);
        let mut values: Vec<Value> = Vec::new();
        values.push(Value::Integer(count));
        let mut out: Vec<ExecutorRow> = Vec::new();
        out.push(ExecutorRow { rid: None, values });
        assert(rows_of(out@) =~= count_row(rows.len() as int));
        Ok(out)
    }
}

/// The target columns of a plan are columns of its table schema.
pub open spec fn insert_fits_plan(plan: InsertPlan) -> bool {
    forall|i: int| 0 <= i < plan.target_col_idxs@.len() ==> (#[trigger] plan.target_col_idxs@[i]) < plan.table_schema.columns@.len()
}

/// The rows an INSERT adds, as a scan reads them back: input row `k` at
/// record id `start + k`, holding what the insert stores for it.
pub open spec fn inserted_rows(plan: InsertPlan, rows: Seq<RowView>, start: int) -> Seq<RowView> {
    Seq::new(rows.len(), |k: int| RowView { rid: Some((start + k) as usize), values: inserted_values(plan, rows[k].values) })
}

/// A scan reads a prefix of a heap from that prefix alone.
proof fn lemma_live_rows_prefix(a: Seq<(TupleMeta, Tuple)>, b: Seq<(TupleMeta, Tuple)>, n: int)
    requires
        0 <= n <= a.len(),
        n <= b.len(),
        forall|r: int| 0 <= r < n ==> #[trigger] a[r] == b[r],
    ensures
        live_rows(a, n) == live_rows(b, n),
    decreases n,
{
    if n > 0 {
        lemma_live_rows_prefix(a, b, n - 1);
        assert(a[n - 1] == b[n - 1]);
    }
}

proof fn lemma_live_rows_appended(a: Seq<(TupleMeta, Tuple)>, b: Seq<(TupleMeta, Tuple)>, plan: InsertPlan, rows: Seq<RowView>, j: int)
    requires
        0 <= j <= rows.len(),
        appended(b, a, plan, rows),
        live_rows(a, b.len() as int) == live_rows(b, b.len() as int),
    ensures
        live_rows(a, b.len() + j) == live_rows(b, b.len() as int) + inserted_rows(plan, rows, b.len() as int).take(j),
    decreases j,
{
    let old_rows = live_rows(b, b.len() as int);
    let new_rows = inserted_rows(plan, rows, b.len() as int);
    if j == 0 {
        assert(new_rows.take(0) =~= Seq::<RowView>::empty());
        assert(old_rows + new_rows.take(0) =~= old_rows);
    } else {
        lemma_live_rows_appended(a, b, plan, rows, j - 1);
        assert(a[b.len() + j - 1].0 == TupleMeta { ts: 0, is_deleted: false });
        assert(new_rows.take(j) =~= new_rows.take(j - 1).push(new_rows[j - 1]));
        assert(old_rows + new_rows.take(j) =~= (old_rows + new_rows.take(j - 1)).push(new_rows[j - 1]));
    }
}

/// What a scan reads back of an INSERT: the rows it read before, then every
/// inserted row, in order, each at the next record id.
pub proof fn lemma_scan_after_insert(before: Catalog, after: Catalog, plan: InsertPlan, rows: Seq<RowView>, res: Result<Seq<RowView>, ExecutionError>)
    requires
        insert_effect(before, after, plan, rows, res),
        plan.table_oid < before.tables@.len(),
    ensures
        scan_output(before, plan.table_oid) matches Ok(old_rows)
            && scan_output(after, plan.table_oid) == Ok::<Seq<RowView>, ExecutionError>(
                old_rows + inserted_rows(plan, rows, before.tables@[plan.table_oid as int].table_heap.tuples@.len() as int),
            ),
{
    let oid = plan.table_oid as int;
    let b = before.tables@[oid].table_heap.tuples@;
    let a = after.tables@[oid].table_heap.tuples@;
    let old_rows = live_rows(b, b.len() as int);
    let new_rows = inserted_rows(plan, rows, b.len() as int);
    lemma_live_rows_prefix(a, b, b.len() as int);
    lemma_live_rows_appended(a, b, plan, rows, rows.len() as int);
    assert(new_rows.take(rows.len() as int) =~= new_rows);
}

} // verus!
