use vstd::prelude::*;
use crate::catalog::catalog::Catalog;
use crate::catalog::error::{CatalogError, TableIdentifier, TableId};
use crate::catalog::schema::Schema;
use crate::common::position::index_of;
use crate::query::executor::engine::{ExecutorRow, RowView, min_len, rows_of, take_batch};
use crate::query::executor::error::ExecutionError;
use crate::query::planner::plan::SeqScanPlan;
use crate::storage::tuple::{Tuple, TupleMeta};

verus! {

/// The live tuples among the first `n` of a heap, in record order, each
/// with its record id.
pub open spec fn live_rows(tuples: Seq<(TupleMeta, Tuple)>, n: int) -> Seq<RowView>
    decreases n,
{
    if n <= 0 {
        Seq::empty()
    } else {
        let prev = live_rows(tuples, n - 1);
        if tuples[n - 1].0.is_deleted {
            prev
        } else {
            prev.push(RowView { rid: Some((n - 1) as usize), values: tuples[n - 1].1.values@ })
        }
    }
}

/// What a scan of the table `oid` produces.
pub open spec fn scan_output(cat: Catalog, oid: TableId) -> Result<Seq<RowView>, ExecutionError> {
    if oid < cat.tables@.len() {
        let heap = cat.tables@[oid as int].table_heap.tuples@;
        Ok(live_rows(heap, heap.len() as int))
    } else {
        Err(ExecutionError::Catalog(CatalogError::TableNotFound(TableIdentifier::Oid(oid))))
    }
}

/// Reads the live tuples of a table.
pub struct SeqScanExecutor<'p> {
    pub plan: &'p SeqScanPlan,
    pub output_schema: &'p Schema,
    pub output: Vec<ExecutorRow>,
}

impl<'p> SeqScanExecutor<'p> {
    pub fn new(plan: &'p SeqScanPlan, output_schema: &'p Schema) -> (res: Self)
        ensures
            res.plan == plan,
            res.output_schema == output_schema,
            res.output@.len() == 0,
    {
        SeqScanExecutor { plan, output_schema, output: Vec::new() }
    }

    /// Reads the table: every live tuple, in record order.
    pub fn init(&mut self, catalog: &Catalog) -> (res: Result<(), ExecutionError>)
        requires
            catalog.wf(),
        ensures
            final(self).plan == old(self).plan,
            final(self).output_schema == old(self).output_schema,
            match scan_output(*catalog, old(self).plan.table_oid) {
                Ok(rows) => res is Ok && rows_of(final(self).output@) == rows,
                Err(e) => res == Err::<(), ExecutionError>(e),
            },
    {
        let info = match catalog.get_tbl_by_oid(self.plan.table_oid) {
            Ok(info) => info,
            Err(e) => return Err(ExecutionError::Catalog(e)),
        };
        let tuples = &info.table_heap.tuples;
        let mut out: Vec<ExecutorRow> = Vec::new();
        let mut i: usize = 0;
        while i < tuples.len()
            invariant
                i <= tuples@.len(),
                rows_of(out@) == live_rows(tuples@, index_of(i)),
            decreases tuples@.len() - i,
        {
            let (meta, tuple) = &tuples[i];
            if !meta.is_deleted() {
                let ghost before = rows_of(out@);
                out.push(ExecutorRow { rid: Some(i), values: tuple.get_values(self.output_schema) });
                assert(rows_of(out@) =~= before.push(RowView { rid: Some(i), values: tuple.values@ }));
            }
            i = i + 1;
        }
        self.output = out;
        Ok(())
    }

    /// The next batch of rows read.
    pub fn next(&mut self, batch_size: usize) -> (res: Result<Vec<ExecutorRow>, ExecutionError>)
        ensures
            final(self).plan == old(self).plan,
            match res {
                Ok(b) => {
                    let k = min_len(batch_size as nat, old(self).output@.len()) as int;
                    &&& rows_of(b@) == rows_of(old(self).output@).take(k)
                    &&& rows_of(final(self).output@) == rows_of(old(self).output@).skip(k)
                },
                Err(_) => false,
            },
    {
        Ok(take_batch(&mut self.output, batch_size))
    }
}

} // verus!
