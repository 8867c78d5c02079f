use vstd::prelude::*;
use crate::catalog::catalog::Catalog;
use crate::catalog::column::Column;
use crate::catalog::error::{CatalogError, IndexIdentifier, TableIdentifier};
use crate::catalog::schema::Schema;
use crate::common::position::index_of;
use crate::query::executor::engine::{ExecutorRow, RowView, min_len, rows_of, take_batch};
use crate::query::executor::error::ExecutionError;
use crate::query::executor::filter::rows_wide;
use crate::query::executor::join::{build_join_tuple, joined};
use crate::query::executor::projection::{all_refs_ok, eval_list, evaluate_list};
use crate::query::planner::plan::NestedIndexJoinPlan;
use crate::query::table_ref::JoinType;
use crate::storage::error::TableHeapError;
use crate::storage::index::matching_rids;
use crate::storage::tuple::{Rid, Tuple, TupleMeta};
use crate::types::value::Value;

verus! {

/// No value of the key is NULL.
pub open spec fn key_not_null(k: Seq<Value>) -> bool {
    forall|i: int| 0 <= i < k.len() ==> !(#[trigger] k[i] is Null)
}

/// The values of the live tuples among the first `n` record ids; a record id
/// past the end of the heap is an error.
pub open spec fn inner_rows(heap: Seq<(TupleMeta, Tuple)>, rids: Seq<Rid>, n: int) -> Result<Seq<Seq<Value>>, ExecutionError>
    decreases n,
{
    if n <= 0 {
        Ok(Seq::empty())
    } else {
        match inner_rows(heap, rids, n - 1) {
            Err(e) => Err(e),
            Ok(prev) => if rids[n - 1] >= heap.len() {
                Err(ExecutionError::TableHeap(TableHeapError::InvalidRid(rids[n - 1])))
            } else if heap[rids[n - 1] as int].0.is_deleted {
                Ok(prev)
            } else {
                Ok(prev.push(heap[rids[n - 1] as int].1.values@))
            },
        }
    }
}

/// The outer row `l` joined with each of the inner rows `ms`.
pub open spec fn joined_all(cols: Seq<Column>, l: Seq<Value>, ms: Seq<Seq<Value>>) -> Seq<RowView> {
    ms.map_values(|m: Seq<Value>| joined(cols, l, Some(m)))
}

/// The rows of the index join of the first `n` outer rows: each outer row
/// with the live inner tuples whose key in the index is the value of the
/// join expressions over it (none where that key holds a NULL), or for a
/// left join without match, the row padded with NULLs.
pub open spec fn index_join_rows(plan: NestedIndexJoinPlan, cat: Catalog, cols: Seq<Column>, lefts: Seq<RowView>, n: int) -> Result<Seq<RowView>, ExecutionError>
    decreases n,
{
    if n <= 0 {
        Ok(Seq::empty())
    } else {
        match index_join_rows(plan, cat, cols, lefts, n - 1) {
            Err(e) => Err(e),
            Ok(prev) => {
                let l = lefts[n - 1].values;
                match eval_list(plan.predicate_expressions@, l, plan.predicate_expressions@.len() as int) {
                    Err(e) => Err(e),
                    Ok(key) => {
                        let rids = if key_not_null(key) {
                            matching_rids(cat.indexes@[plan.inner_table_index_oid as int].index.entries@, key)
                        } else {
                            Seq::empty()
                        };
                        let heap = cat.tables@[plan.inner_table_oid as int].table_heap.tuples@;
                        match inner_rows(heap, rids, rids.len() as int) {
                            Err(e) => Err(e),
                            Ok(ms) => if ms.len() == 0 && plan.join_type == JoinType::Left {
                                Ok(prev.push(joined(cols, l, None)))
                            } else {
                                Ok(prev + joined_all(cols, l, ms))
                            },
                        }
                    },
                }
            },
        }
    }
}

/// What an index join produces: an error where its index or inner table is
/// missing, else its joined rows.
pub open spec fn index_join_output(plan: NestedIndexJoinPlan, cat: Catalog, cols: Seq<Column>, lefts: Seq<RowView>) -> Result<Seq<RowView>, ExecutionError> {
    if plan.inner_table_index_oid >= cat.indexes@.len() {
        Err(ExecutionError::Catalog(CatalogError::IndexNotFound(IndexIdentifier::Oid(plan.inner_table_index_oid))))
    } else if plan.inner_table_oid >= cat.tables@.len() {
        Err(ExecutionError::Catalog(CatalogError::TableNotFound(TableIdentifier::Oid(plan.inner_table_oid))))
    } else {
        index_join_rows(plan, cat, cols, lefts, lefts.len() as int)
    }
}

proof fn lemma_inner_rows_err_sticks(heap: Seq<(TupleMeta, Tuple)>, rids: Seq<Rid>, k: int, n: int)
    requires
        0 <= k <= n,
        inner_rows(heap, rids, k) is Err,
    ensures
        inner_rows(heap, rids, n) == inner_rows(heap, rids, k),
    decreases n - k,
{
    if k < n {
        lemma_inner_rows_err_sticks(heap, rids, k, n - 1);
    }
}

proof fn lemma_index_join_err_sticks(plan: NestedIndexJoinPlan, cat: Catalog, cols: Seq<Column>, lefts: Seq<RowView>, k: int, n: int)
    requires
        0 <= k <= n,
        index_join_rows(plan, cat, cols, lefts, k) is Err,
    ensures
        index_join_rows(plan, cat, cols, lefts, n) == index_join_rows(plan, cat, cols, lefts, k),
    decreases n - k,
{
    if k < n {
        lemma_index_join_err_sticks(plan, cat, cols, lefts, k, n - 1);
    }
}

/// For each outer row, looks its key up in an index of the inner table.
pub struct NestedIndexJoinExecutor<'p> {
    pub plan: &'p NestedIndexJoinPlan,
    pub output_schema: &'p Schema,
    pub outer: Vec<ExecutorRow>,
    pub output: Vec<ExecutorRow>,
}

impl<'p> NestedIndexJoinExecutor<'p> {
    pub fn new(plan: &'p NestedIndexJoinPlan, output_schema: &'p Schema, outer: Vec<ExecutorRow>) -> (res: Self)
        ensures
            res.plan == plan,
            res.output_schema == output_schema,
            res.outer@ == outer@,
            res.output@.len() == 0,
    {
        NestedIndexJoinExecutor { plan, output_schema, outer, output: Vec::new() }
    }

    /// The live inner tuples at the record ids `rids`, in order.
    fn fetch_inner(catalog: &Catalog, table: usize, rids: &Vec<Rid>) -> (res: Result<Vec<Vec<Value>>, ExecutionError>)
        requires
            table < catalog.tables@.len(),
        ensures
            match inner_rows(catalog.tables@[table as int].table_heap.tuples@, rids@, rids@.len() as int) {
                Ok(ms) => res matches Ok(v) && v@.map_values(|x: Vec<Value>| x@) == ms,
                Err(e) => res == Err::<Vec<Vec<Value>>, ExecutionError>(e),
            },
    {
        let heap = &catalog.tables[table].table_heap;
        let mut out: Vec<Vec<Value>> = Vec::new();
        assert(out@.map_values(|x: Vec<Value>| x@) =~= Seq::<Seq<Value>>::empty());
        let mut k: usize = 0;
        while k < rids.len()
            invariant
                k <= rids@.len(),
                *heap == catalog.tables@[table as int].table_heap,
                inner_rows(heap.tuples@, rids@, index_of(k)) == Ok::<Seq<Seq<Value>>, ExecutionError>(out@.map_values(|x: Vec<Value>| x@)),
            decreases rids@.len() - k,
        {
            let rid = rids[k];
            match heap.get_tuple(rid) {
                Err(e) => {
                    proof { lemma_inner_rows_err_sticks(heap.tuples@, rids@, index_of(k) + 1, rids@.len() as int); }
                    return Err(ExecutionError::TableHeap(e));
                },
                Ok((meta, tuple)) => {
                    if !meta.is_deleted() {
                        let ghost prev = out@.map_values(|x: Vec<Value>| x@);
                        out.push(tuple.values);
                        assert(out@.map_values(|x: Vec<Value>| x@) =~= prev.push(heap.tuples@[rid as int].1.values@));
                    }
                },
            }
            k = k + 1;
        }
        Ok(out)
    }

    /// Joins every outer row with the inner tuples its key finds.
    pub fn init(&mut self, catalog: &Catalog, lw: Ghost<nat>) -> (res: Result<(), ExecutionError>)
        requires
            catalog.wf(),
            rows_wide(rows_of(old(self).outer@), lw@),
            lw@ <= old(self).output_schema.columns@.len(),
            all_refs_ok(old(self).plan.predicate_expressions@, lw@),
        ensures
            final(self).plan == old(self).plan,
            match index_join_output(*old(self).plan, *catalog, old(self).output_schema.columns@, rows_of(old(self).outer@)) {
                Ok(rows) => res is Ok && rows_of(final(self).output@) == rows,
                Err(e) => res == Err::<(), ExecutionError>(e),
            },
    {
        let index_info = match catalog.get_idx_by_oid(self.plan.inner_table_index_oid) {
            Ok(i) => i,
            Err(e) => return Err(ExecutionError::Catalog(e)),
        };
        if let Err(e) = catalog.get_tbl_by_oid(self.plan.inner_table_oid) {
            return Err(ExecutionError::Catalog(e));
        }
        let table = self.plan.inner_table_oid as usize;
        let ghost lefts = rows_of(self.outer@);
        let ghost cols = self.output_schema.columns@;
        let ghost cat = *catalog;
        let mut out: Vec<ExecutorRow> = Vec::new();
        assert(rows_of(out@) =~= Seq::<RowView>::empty());
        let mut i: usize = 0;
        while i < self.outer.len()
            invariant
                i <= self.outer@.len(),
                *self == *old(self),
                cat == *catalog,
                table == self.plan.inner_table_oid,
                table < catalog.tables@.len(),
                self.plan.inner_table_index_oid < catalog.indexes@.len(),
                *index_info == catalog.indexes@[self.plan.inner_table_index_oid as int],
                lefts == rows_of(self.outer@),
                cols == self.output_schema.columns@,
                rows_wide(lefts, lw@),
                lw@ <= cols.len(),
                all_refs_ok(self.plan.predicate_expressions@, lw@),
                index_join_rows(*self.plan, cat, cols, lefts, index_of(i)) == Ok::<Seq<RowView>, ExecutionError>(rows_of(out@)),
            decreases self.outer@.len() - i,
        {
            let row = &self.outer[i];
            assert(lefts[index_of(i)] == row@);
            assert(row.values@.len() == lw@) by {
                assert(lefts[index_of(i)].values.len() == lw@);
            }
            let key_values = match evaluate_list(self.plan.predicate_expressions.as_slice(), row.values.as_slice()) {
                Ok(k) => k,
                Err(e) => {
                    proof { lemma_index_join_err_sticks(*self.plan, cat, cols, lefts, index_of(i) + 1, lefts.len() as int); }
                    return Err(e);
                },
            };
            let key = Tuple { values: key_values };
            let rids: Vec<Rid> = if key.all_values_not_null(&index_info.index.metadata.key_schema) {
                match index_info.index.scan_key(&key) {
                    Ok(r) => r,
                    Err(_) => Vec::new(),
                }
            } else {
                Vec::new()
            };
            let inner = match Self::fetch_inner(catalog, table, &rids) {
                Ok(v) => v,
                Err(e) => {
                    proof { lemma_index_join_err_sticks(*self.plan, cat, cols, lefts, index_of(i) + 1, lefts.len() as int); }
                    return Err(e);
                },
            };
            let ghost before = rows_of(out@);
            if inner.len() == 0 && self.plan.join_type == JoinType::Left {
                out.push(build_join_tuple(self.output_schema, row, None));
                assert(rows_of(out@) =~= before.push(joined(cols, row.values@, None)));
            } else {
                let ghost ms = inner@.map_values(|x: Vec<Value>| x@);
                let mut k: usize = 0;
                while k < inner.len()
                    invariant
                        k <= inner@.len(),
                        rows_of(out@) == before + joined_all(cols, row.values@, ms).subrange(0, index_of(k)),
                        ms == inner@.map_values(|x: Vec<Value>| x@),
                        cols == self.output_schema.columns@,
                    decreases inner@.len() - k,
                {
                    let inner_row = ExecutorRow { rid: Some(rids_at(&rids, k)), values: crate::types::value::clone_values(inner[k].as_slice()) };
                    let ghost prev = rows_of(out@);
                    assert(ms[index_of(k)] == inner@[index_of(k)]@);
                    out.push(build_join_tuple(self.output_schema, row, Some(&inner_row)));
                    assert(rows_of(out@) =~= prev.push(joined(cols, row.values@, Some(ms[index_of(k)]))));
                    k = k + 1;
                    assert(rows_of(out@) =~= before + joined_all(cols, row.values@, ms).subrange(0, index_of(k)));
                }
                assert(joined_all(cols, row.values@, ms).subrange(0, index_of(k)) =~= joined_all(cols, row.values@, ms));
            }
            i = i + 1;
        }
        self.output = out;
        Ok(())
    }

    /// The next batch of joined rows.
    pub fn next(&mut self, batch_size: usize) -> (res: Result<Vec<ExecutorRow>, ExecutionError>)
        ensures
            final(self).plan == old(self).plan,
            match res {
                Ok(b) => {
                    let k = min_len(batch_size as nat, old(self).output@.len()) as int;
                    &&& rows_of(b@) == rows_of(old(self).output@).take(k)
                    &&& rows_of(final(self).output@) == rows_of(old(self).output@).skip(k)
                },
                Err(_) => false,
            },
    {
        Ok(take_batch(&mut self.output, batch_size))
    }
}

/// The record id at a position of a list of them, or 0 past its end.
fn rids_at(rids: &Vec<Rid>, k: usize) -> (res: Rid)
    ensures
        k < rids@.len() ==> res == rids@[k as int],
{
    if k < rids.len() {
        rids[k]
    } else {
        0
    }
}

} // verus!
