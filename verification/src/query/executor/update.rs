use vstd::prelude::*;
use crate::catalog::catalog::{Catalog, entries_view};
use crate::catalog::error::{CatalogError, IndexId, TableIdentifier};
use crate::catalog::schema::Schema;
use crate::common::position::index_of;
use crate::query::executor::delete::{
    delete_index_entries, indexes_kept, kept_after_delete, lemma_index_keys_fit, lemma_live_rows_after_delete, marks_deleted,
    rows_target_live, table_index_keys, targets, without_entry,
};
use crate::query::executor::seq_scan::{live_rows, scan_output};
use crate::query::executor::engine::{ExecutorRow, RowView, res_view, rows_of};
use crate::query::executor::error::ExecutionError;
use crate::query::executor::insert::count_row;
use crate::query::executor::projection::{all_refs_ok, eval_list, evaluate_list, lemma_eval_list_len};
use crate::query::planner::plan::UpdatePlan;
use crate::storage::tuple::{Rid, Tuple, TupleMeta, key_of};
use crate::types::value::Value;

verus! {

/// The new values of the tuples the first `n` rows refer to: the plan's
/// expressions over each old tuple. The first error is the outcome.
pub open spec fn update_values(es: Seq<PlannedExpression>, heap: Seq<(TupleMeta, Tuple)>, rows: Seq<RowView>, n: int) -> Result<Seq<Seq<Value>>, ExecutionError>
    decreases n,
{
    if n <= 0 {
        Ok(Seq::empty())
    } else {
        match update_values(es, heap, rows, n - 1) {
            Err(e) => Err(e),
            Ok(prev) => match eval_list(es, heap[rows[n - 1].rid->0 as int].1.values@, es.len() as int) {
                Err(e) => Err(e),
                Ok(vs) => Ok(prev.push(vs)),
            },
        }
    }
}

pub proof fn lemma_update_values_err_sticks(es: Seq<PlannedExpression>, heap: Seq<(TupleMeta, Tuple)>, rows: Seq<RowView>, k: int, n: int)
    requires
        0 <= k <= n,
        update_values(es, heap, rows, k) is Err,
    ensures
        update_values(es, heap, rows, n) == update_values(es, heap, rows, k),
    decreases n - k,
{
    if k < n {
        lemma_update_values_err_sticks(es, heap, rows, k, n - 1);
    }
}

/// Adds the index entries of the tuple `rid`, whose values are `values`, to
/// every index in `keys`: to each, an entry of the tuple's key and `rid`, at
/// the end.
pub fn insert_index_entries(catalog: &mut Catalog, keys: &Vec<(IndexId, Vec<usize>, Schema)>, schema: &Schema, tuple: &Tuple, rid: Rid, t: Ghost<int>)
    requires
        old(catalog).wf(),
        0 <= t@ < old(catalog).tables@.len(),
        tuple.values@.len() == old(catalog).tables@[t@].schema.columns@.len(),
        forall|k: int| 0 <= k < keys@.len() ==> {
            let x = (#[trigger] keys@[k]).0 as int;
            &&& 0 <= x < old(catalog).indexes@.len()
            &&& keys@[k].1@ == old(catalog).indexes@[x].index.metadata.key_attrs@
            &&& old(catalog).indexes@[x].index.metadata.table_name@ == old(catalog).tables@[t@].name@
        },
        forall|i: int, j: int| 0 <= i < j < keys@.len() ==> keys@[i].0 != keys@[j].0,
    ensures
        final(catalog).wf(),
        final(catalog).tables@ == old(catalog).tables@,
        indexes_kept(*old(catalog), *final(catalog), t@),
        forall|k: int| 0 <= k < keys@.len() ==> entries_view(final(catalog).indexes@[(#[trigger] keys@[k]).0 as int].index.entries@)
            == entries_view(old(catalog).indexes@[keys@[k].0 as int].index.entries@).push((key_of(tuple.values@, keys@[k].1@), rid)),
        forall|x: int| 0 <= x < old(catalog).indexes@.len() && (forall|k: int| 0 <= k < keys@.len() ==> (#[trigger] keys@[k]).0 != x)
            ==> final(catalog).indexes@[x] == old(catalog).indexes@[x],
{
    let ghost start = *catalog;
    let mut k: usize = 0;
    while k < keys.len()
        invariant
            k <= keys@.len(),
            catalog.wf(),
            catalog.tables@ == start.tables@,
            start.wf(),
            0 <= t@ < start.tables@.len(),
            tuple.values@.len() == start.tables@[t@].schema.columns@.len(),
            indexes_kept(start, *catalog, t@),
            catalog.indexes@.len() == start.indexes@.len(),
            forall|j: int| 0 <= j < keys@.len() ==> {
                let x = (#[trigger] keys@[j]).0 as int;
                &&& 0 <= x < start.indexes@.len()
                &&& keys@[j].1@ == start.indexes@[x].index.metadata.key_attrs@
                &&& start.indexes@[x].index.metadata.table_name@ == start.tables@[t@].name@
            },
            forall|i: int, j: int| 0 <= i < j < keys@.len() ==> keys@[i].0 != keys@[j].0,
            forall|j: int| 0 <= j < k ==> entries_view(catalog.indexes@[(#[trigger] keys@[j]).0 as int].index.entries@)
                == entries_view(start.indexes@[keys@[j].0 as int].index.entries@).push((key_of(tuple.values@, keys@[j].1@), rid)),
            forall|j: int| k <= j < keys@.len() ==> catalog.indexes@[(#[trigger] keys@[j]).0 as int] == start.indexes@[keys@[j].0 as int],
            forall|x: int| 0 <= x < start.indexes@.len() && (forall|j: int| 0 <= j < keys@.len() ==> (#[trigger] keys@[j]).0 != x)
                ==> catalog.indexes@[x] == start.indexes@[x],
        decreases keys@.len() - k,
    {
        let (oid, attrs, key_schema) = &keys[k];
        proof { lemma_index_keys_fit(start, t@, *oid as int); }
        let key = tuple.key_from_tuple(schema, key_schema, attrs.as_slice());
        let ghost pre = *catalog;
        let _ = catalog.index_insert_entry(*oid, &key, rid);
        proof {
            let x = *oid as int;
            assert(pre.indexes@[x] == start.indexes@[x]);
            assert forall|x2: int| 0 <= x2 < start.indexes@.len() implies {
                &&& (#[trigger] catalog.indexes@[x2]).index.metadata == start.indexes@[x2].index.metadata
                &&& catalog.indexes@[x2].index_oid == start.indexes@[x2].index_oid
                &&& (start.indexes@[x2].index.metadata.table_name@ != start.tables@[t@].name@ ==> catalog.indexes@[x2] == start.indexes@[x2])
            } by {
                if x2 != x {
                    assert(catalog.indexes@[x2] == pre.indexes@[x2]);
                }
            }
            assert forall|j: int| 0 <= j < k + 1 implies entries_view(catalog.indexes@[(#[trigger] keys@[j]).0 as int].index.entries@)
                == entries_view(start.indexes@[keys@[j].0 as int].index.entries@).push((key_of(tuple.values@, keys@[j].1@), rid)) by {
                if j < k {
                    assert(keys@[j].0 != keys@[k as int].0);
                    assert(catalog.indexes@[keys@[j].0 as int] == pre.indexes@[keys@[j].0 as int]);
                }
            }
            assert forall|j: int| k + 1 <= j < keys@.len() implies catalog.indexes@[(#[trigger] keys@[j]).0 as int] == start.indexes@[keys@[j].0 as int] by {
                assert(keys@[k as int].0 != keys@[j].0);
                assert(catalog.indexes@[keys@[j].0 as int] == pre.indexes@[keys@[j].0 as int]);
            }
            assert forall|x2: int| 0 <= x2 < start.indexes@.len() && (forall|j: int| 0 <= j < keys@.len() ==> (#[trigger] keys@[j]).0 != x2)
                implies catalog.indexes@[x2] == start.indexes@[x2] by {
                assert(keys@[k as int].0 != x2);
                assert(catalog.indexes@[x2] == pre.indexes@[x2]);
            }
        }
        k = k + 1;
    }
}

use crate::query::planner::expression::PlannedExpression;

/// Index entries after each of the first `n` updated rows moves its entry:
/// the first entry of its old tuple's key (the values at `attrs`) and record
/// id goes, and an entry of its new values' key and its new tuple's record
/// id, `start` plus its position, comes at the end.
pub open spec fn moved_entries(es: Seq<(Seq<Value>, Rid)>, heap: Seq<(TupleMeta, Tuple)>, attrs: Seq<usize>, rows: Seq<RowView>, vs: Seq<Seq<Value>>, start: int, n: int) -> Seq<(Seq<Value>, Rid)>
    decreases n,
{
    if n <= 0 {
        es
    } else {
        let rid = rows[n - 1].rid->0;
        without_entry(moved_entries(es, heap, attrs, rows, vs, start, n - 1), key_of(heap[rid as int].1.values@, attrs), rid)
            .push((key_of(vs[n - 1], attrs), (start + n - 1) as usize))
    }
}

proof fn lemma_moved_prefix(es: Seq<(Seq<Value>, Rid)>, heap: Seq<(TupleMeta, Tuple)>, attrs: Seq<usize>, rows: Seq<RowView>, rows2: Seq<RowView>, vs: Seq<Seq<Value>>, ws: Seq<Seq<Value>>, start: int, n: int)
    requires
        0 <= n <= vs.len(),
        n <= ws.len(),
        n <= rows.len(),
        n <= rows2.len(),
        forall|k: int| 0 <= k < n ==> vs[k] == ws[k] && rows[k] == rows2[k],
    ensures
        moved_entries(es, heap, attrs, rows, vs, start, n) == moved_entries(es, heap, attrs, rows2, ws, start, n),
    decreases n,
{
    if n > 0 {
        lemma_moved_prefix(es, heap, attrs, rows, rows2, vs, ws, start, n - 1);
        assert(vs[n - 1] == ws[n - 1] && rows[n - 1] == rows2[n - 1]);
    }
}

/// The table of an UPDATE after the tuples of `rows` are replaced: each
/// marked deleted, a new live tuple of `vs[k]` appended for row `k`, the
/// index entries of each moved; every other table, and every index of
/// another table, as it was.
pub open spec fn replaced(before_cat: Catalog, after_cat: Catalog, plan: UpdatePlan, rows: Seq<RowView>, vs: Seq<Seq<Value>>) -> bool {
    let oid = plan.table_oid as int;
    let before = before_cat.tables@[oid];
    let after = after_cat.tables@[oid];
    let heap = before.table_heap.tuples@;
    &&& after_cat.tables@.len() == before_cat.tables@.len()
    &&& forall|i: int| 0 <= i < before_cat.tables@.len() && i != oid ==> #[trigger] after_cat.tables@[i] == before_cat.tables@[i]
    &&& after.schema == before.schema && after.name == before.name && after.table_oid == before.table_oid
    &&& after.table_heap.tuples@.len() == heap.len() + rows.len()
    &&& marks_deleted(heap, after.table_heap.tuples@, rows)
    &&& forall|k: int| 0 <= k < rows.len() ==> {
        &&& (#[trigger] after.table_heap.tuples@[heap.len() + k]).0 == TupleMeta { ts: 0, is_deleted: false }
        &&& after.table_heap.tuples@[heap.len() + k].1.values@ == vs[k]
    }
    &&& indexes_kept(before_cat, after_cat, oid)
    &&& forall|k: int| 0 <= k < before_cat.indexes_of(before.name@).len() ==> {
        let x = #[trigger] before_cat.indexes_of(before.name@)[k];
        entries_view(after_cat.indexes@[x].index.entries@) == moved_entries(
            entries_view(before_cat.indexes@[x].index.entries@),
            heap,
            before_cat.indexes@[x].index.metadata.key_attrs@,
            rows,
            vs,
            heap.len() as int,
            rows.len() as int,
        )
    }
}

/// What running an UPDATE over `rows` does: where its table is missing, an
/// error and no change; where a new value cannot be computed, that error,
/// with the rows before the failing one replaced; else every row replaced
/// and their count returned.
pub open spec fn update_effect(before_cat: Catalog, after_cat: Catalog, plan: UpdatePlan, rows: Seq<RowView>, res: Result<Seq<RowView>, ExecutionError>) -> bool {
    if plan.table_oid >= before_cat.tables@.len() {
        &&& res == Err::<Seq<RowView>, ExecutionError>(ExecutionError::Catalog(CatalogError::TableNotFound(TableIdentifier::Oid(plan.table_oid))))
        &&& after_cat == before_cat
    } else {
        let heap = before_cat.tables@[plan.table_oid as int].table_heap.tuples@;
        match update_values(plan.expressions@, heap, rows, rows.len() as int) {
            Err(e) => {
                &&& res == Err::<Seq<RowView>, ExecutionError>(e)
                &&& exists|j: int| #![trigger update_values(plan.expressions@, heap, rows, j)] {
                    &&& 0 <= j < rows.len()
                    &&& update_values(plan.expressions@, heap, rows, j) matches Ok(vs)
                    &&& update_values(plan.expressions@, heap, rows, j + 1) is Err
                    &&& replaced(before_cat, after_cat, plan, rows.take(j), vs)
                }
            },
            Ok(vs) => {
                &&& res == Ok::<Seq<RowView>, ExecutionError>(count_row(rows.len() as int))
                &&& replaced(before_cat, after_cat, plan, rows, vs)
            },
        }
    }
}

/// Replaces the tuples of its input rows by new ones.
pub struct UpdateExecutor<'p> {
    pub plan: &'p UpdatePlan,
    pub output_schema: &'p Schema,
    pub input: Vec<ExecutorRow>,
    pub done: bool,
}

impl<'p> UpdateExecutor<'p> {
    pub fn new(plan: &'p UpdatePlan, output_schema: &'p Schema, input: Vec<ExecutorRow>) -> (res: Self)
        ensures
            res.plan == plan,
            res.output_schema == output_schema,
            res.input@ == input@,
            !res.done,
    {
        UpdateExecutor { plan, output_schema, input, done: false }
    }

    /// For every input row, once: marks its tuple deleted and appends the
    /// tuple of the new values, moving its index entries along; later calls
    /// produce nothing.
    pub fn next(&mut self, catalog: &mut Catalog, batch_size: usize) -> (res: Result<Vec<ExecutorRow>, ExecutionError>)
        requires
            old(catalog).wf(),
            old(self).input@.len() <= i32::MAX,
            !old(self).done && old(self).plan.table_oid < old(catalog).tables@.len() ==> {
                let t = old(catalog).tables@[old(self).plan.table_oid as int];
                &&& rows_target_live(t.table_heap.tuples@, rows_of(old(self).input@))
                &&& old(self).plan.expressions@.len() == t.schema.columns@.len()
                &&& all_refs_ok(old(self).plan.expressions@, t.schema.columns@.len())
            },
        ensures
            final(catalog).wf(),
            final(self).plan == old(self).plan,
            final(self).input@ == old(self).input@,
            final(self).done,
            old(self).done ==> (res matches Ok(b) && b@.len() == 0 && *final(catalog) == *old(catalog)),
            !old(self).done ==> update_effect(*old(catalog), *final(catalog), *old(self).plan, rows_of(old(self).input@), res_view(res)),
    {
        if self.done {
            return Ok(Vec::new());
        }
        self.done = true;
        let oid = self.plan.table_oid;
        let (name, schema) = match catalog.get_tbl_by_oid(oid) {
            Ok(info) => (info.name.clone(), info.schema()),
            Err(e) => return Err(ExecutionError::Catalog(e)),
        };
        let ghost t = oid as int;
        let ghost rows = rows_of(self.input@);
        let ghost start = *catalog;
        let ghost before = start.tables@[t];
        let ghost heap = before.table_heap.tuples@;
        let ghost es = self.plan.expressions@;
        assert(catalog.table_named(name@) is Some) by {
            assert(catalog.tables@[t].name@ == name@);
        }
        let keys = table_index_keys(catalog, name.as_str());
        let heap_len: usize = catalog.tables[oid as usize].table_heap.num_tuples();
        let ghost mut vs: Seq<Seq<Value>> = Seq::empty();
        assert forall|r: int| 0 <= r < heap.len() implies (#[trigger] heap[r]).1.values@.len() == before.schema.columns@.len() by {
            assert(before.table_heap.values(r).len() == before.schema.columns@.len());
        }
        let mut count: i32 = 0;
        let mut i: usize = 0;
        while i < self.input.len()
            invariant
                i <= self.input@.len(),
                self.input@.len() <= i32::MAX,
                count == i,
                rows == rows_of(self.input@),
                self.done,
                !old(self).done,
                vs.len() == i,
                self.plan == old(self).plan,
                self.input@ == old(self).input@,
                es == self.plan.expressions@,
                oid == self.plan.table_oid,
                t == oid as int,
                0 <= t < start.tables@.len(),
                start == *old(catalog),
                start.wf(),
                catalog.wf(),
                before == start.tables@[t],
                heap == before.table_heap.tuples@,
                heap_len == heap.len(),
                name@ == before.name@,
                rows_target_live(heap, rows),
                es.len() == before.schema.columns@.len(),
                all_refs_ok(es, before.schema.columns@.len()),
                forall|r: int| 0 <= r < heap.len() ==> (#[trigger] heap[r]).1.values@.len() == before.schema.columns@.len(),
                update_values(es, heap, rows, index_of(i)) == Ok::<Seq<Seq<Value>>, ExecutionError>(vs),
                catalog.tables@.len() == start.tables@.len(),
                forall|x: int| 0 <= x < start.tables@.len() && x != t ==> #[trigger] catalog.tables@[x] == start.tables@[x],
                catalog.tables@[t].schema == before.schema,
                catalog.tables@[t].name == before.name,
                catalog.tables@[t].table_oid == before.table_oid,
                catalog.tables@[t].table_heap.tuples@.len() == heap.len() + i,
                marks_deleted(heap, catalog.tables@[t].table_heap.tuples@, rows.subrange(0, index_of(i))),
                keys@.len() == start.indexes_of(before.name@).len(),
                forall|k: int| 0 <= k < keys@.len() ==> (#[trigger] keys@[k]).0 as int == start.indexes_of(before.name@)[k],
                forall|i2: int, j2: int| 0 <= i2 < j2 < keys@.len() ==> keys@[i2].0 != keys@[j2].0,
                forall|k: int| 0 <= k < keys@.len() ==> entries_view(catalog.indexes@[(#[trigger] keys@[k]).0 as int].index.entries@)
                    == moved_entries(entries_view(start.indexes@[keys@[k].0 as int].index.entries@), heap, keys@[k].1@, rows, vs, heap.len() as int, index_of(i)),
                forall|k: int| 0 <= k < i ==> {
                    &&& (#[trigger] catalog.tables@[t].table_heap.tuples@[heap.len() + k]).0 == TupleMeta { ts: 0, is_deleted: false }
                    &&& catalog.tables@[t].table_heap.tuples@[heap.len() + k].1.values@ == vs[k]
                },
                indexes_kept(start, *catalog, t),
                forall|k: int| 0 <= k < keys@.len() ==> {
                    let x = (#[trigger] keys@[k]).0 as int;
                    &&& 0 <= x < catalog.indexes@.len()
                    &&& keys@[k].1@ == catalog.indexes@[x].index.metadata.key_attrs@
                    &&& catalog.indexes@[x].index.metadata.table_name@ == catalog.tables@[t].name@
                },
            decreases self.input@.len() - i,
        {
            assert(rows[index_of(i)] == self.input@[index_of(i)]@);
            let rid = match self.input[i].rid {
                Some(r) => r,
                None => {
                    assert(false);
                    return Err(ExecutionError::MissingRid);
                },
            };
            assert(!targets(rows.subrange(0, index_of(i)), rid as int)) by {
                if targets(rows.subrange(0, index_of(i)), rid as int) {
                    let j = choose|j: int| 0 <= j < index_of(i) && (#[trigger] rows.subrange(0, index_of(i))[j]).rid == Some(rid);
                    assert(rows.subrange(0, index_of(i))[j] == rows[j]);
                }
            }
            let (meta, old_tuple) = match catalog.tables[oid as usize].table_heap.get_tuple(rid) {
                Ok(x) => x,
                Err(e) => {
                    assert(false);
                    return Err(ExecutionError::TableHeap(e));
                },
            };
            assert(old_tuple.values@ == heap[rid as int].1.values@);
            let new_values = match evaluate_list(self.plan.expressions.as_slice(), old_tuple.values.as_slice()) {
                Ok(v) => v,
                Err(e) => {
                    proof {
                        lemma_update_values_err_sticks(es, heap, rows, index_of(i) + 1, rows.len() as int);
                        let done = rows.take(index_of(i));
                        assert(done =~= rows.subrange(0, index_of(i)));
                        assert forall|k: int| 0 <= k < start.indexes_of(before.name@).len() implies {
                            let x = #[trigger] start.indexes_of(before.name@)[k];
                            entries_view(catalog.indexes@[x].index.entries@) == moved_entries(
                                entries_view(start.indexes@[x].index.entries@),
                                heap,
                                start.indexes@[x].index.metadata.key_attrs@,
                                done,
                                vs,
                                heap.len() as int,
                                done.len() as int,
                            )
                        } by {
                            let x = start.indexes_of(before.name@)[k];
                            assert(keys@[k].0 as int == x);
                            assert(keys@[k].1@ == catalog.indexes@[x].index.metadata.key_attrs@);
                            assert(catalog.indexes@[x].index.metadata == start.indexes@[x].index.metadata);
                            lemma_moved_prefix(entries_view(start.indexes@[x].index.entries@), heap, keys@[k].1@, rows, done, vs, vs, heap.len() as int, index_of(i));
                        }
                        assert(replaced(start, *catalog, *self.plan, done, vs));
                    }
                    return Err(e);
                },
            };
            let ghost vs0 = vs;
            proof {
                lemma_eval_list_len(es, old_tuple.values@, es.len() as int);
                vs = vs.push(new_values@);
            }
            let new_tuple = Tuple::from_values(new_values.as_slice(), &self.plan.table_schema);
            let ghost c0 = *catalog;
            let _ = catalog.update_tuple_meta(oid, rid, meta.delete());
            let ghost c1 = *catalog;
            let new_rid = match catalog.insert_tuple(oid, &TupleMeta::new(0, false), &new_tuple) {
                Ok(r) => r,
                Err(e) => {
                    assert(false);
                    return Err(ExecutionError::Catalog(e));
                },
            };
            let ghost c2 = *catalog;
            delete_index_entries(catalog, &keys, &schema, &old_tuple, rid, Ghost(t));
            let ghost c3 = *catalog;
            insert_index_entries(catalog, &keys, &schema, &new_tuple, new_rid, Ghost(t));
            proof {
                assert forall|k: int| 0 <= k < keys@.len() implies entries_view(catalog.indexes@[(#[trigger] keys@[k]).0 as int].index.entries@)
                    == moved_entries(entries_view(start.indexes@[keys@[k].0 as int].index.entries@), heap, keys@[k].1@, rows, vs, heap.len() as int, index_of(i) + 1) by {
                    let x = keys@[k].0 as int;
                    lemma_moved_prefix(entries_view(start.indexes@[x].index.entries@), heap, keys@[k].1@, rows, rows, vs0, vs, heap.len() as int, index_of(i));
                    assert(c2.indexes@[x] == c0.indexes@[x]);
                    assert(rows[index_of(i)].rid == Some(rid));
                    assert(new_tuple.values@ == vs[index_of(i)]);
                    assert(new_rid == (heap.len() + index_of(i)) as usize);
                }
                let done_rows = rows.subrange(0, index_of(i) + 1);
                let cur = catalog.tables@[t].table_heap.tuples@;
                let prev = c0.tables@[t].table_heap.tuples@;
                assert(cur == c2.tables@[t].table_heap.tuples@);
                assert forall|r: int| 0 <= r < heap.len() implies if targets(done_rows, r) {
                    &&& (#[trigger] cur[r]).0 == TupleMeta { is_deleted: true, ..heap[r].0 }
                    &&& cur[r].1.values@ == heap[r].1.values@
                } else {
                    cur[r] == heap[r]
                } by {
                    assert(cur[r] == c1.tables@[t].table_heap.tuples@[r]);
                    if r == rid as int {
                        assert(done_rows[index_of(i)].rid == Some(rid));
                        assert(targets(done_rows, r));
                        assert(prev[r] == heap[r]);
                    } else {
                        assert(c1.tables@[t].table_heap.tuples@[r] == prev[r]);
                        assert((r as usize) as int == r);
                        if targets(done_rows, r) {
                            let j = choose|j: int| 0 <= j < done_rows.len() && (#[trigger] done_rows[j]).rid == Some(r as usize);
                            assert(done_rows[index_of(i)].rid == Some(rid));
                            assert(j < index_of(i));
                            assert(rows.subrange(0, index_of(i))[j] == done_rows[j]);
                            assert(targets(rows.subrange(0, index_of(i)), r));
                        } else {
                            if targets(rows.subrange(0, index_of(i)), r) {
                                let j = choose|j: int| 0 <= j < index_of(i) && (#[trigger] rows.subrange(0, index_of(i))[j]).rid == Some(r as usize);
                                assert(done_rows[j] == rows.subrange(0, index_of(i))[j]);
                            }
                        }
                    }
                }
                assert forall|k: int| 0 <= k < i + 1 implies {
                    &&& (#[trigger] cur[heap.len() + k]).0 == TupleMeta { ts: 0, is_deleted: false }
                    &&& cur[heap.len() + k].1.values@ == vs[k]
                } by {
                    if k < i {
                        assert(cur[heap.len() + k] == c1.tables@[t].table_heap.tuples@[heap.len() + k]);
                        assert(c1.tables@[t].table_heap.tuples@[heap.len() + k] == prev[heap.len() + k]);
                    }
                }
                assert forall|x: int| 0 <= x < start.indexes@.len() implies {
                    &&& (#[trigger] catalog.indexes@[x]).index.metadata == start.indexes@[x].index.metadata
                    &&& catalog.indexes@[x].index_oid == start.indexes@[x].index_oid
                    &&& (start.indexes@[x].index.metadata.table_name@ != start.tables@[t].name@ ==> catalog.indexes@[x] == start.indexes@[x])
                } by {
                    assert(c2.indexes@[x] == c0.indexes@[x]);
                }
            }
            count = count + 1;
            i = i + 1;
        }
        assert(rows.subrange(0, index_of(i)) =~= rows);
        proof {
            assert forall|k: int| 0 <= k < start.indexes_of(before.name@).len() implies {
                let x = #[trigger] start.indexes_of(before.name@)[k];
                entries_view(catalog.indexes@[x].index.entries@) == moved_entries(
                    entries_view(start.indexes@[x].index.entries@),
                    heap,
                    start.indexes@[x].index.metadata.key_attrs@,
                    rows,
                    vs,
                    heap.len() as int,
                    rows.len() as int,
                )
            } by {
                let x = start.indexes_of(before.name@)[k];
                assert(keys@[k].0 as int == x);
                assert(keys@[k].1@ == catalog.indexes@[x].index.metadata.key_attrs@);
                assert(catalog.indexes@[x].index.metadata == start.indexes@[x].index.metadata);
            }
        }
        let mut values: Vec<Value> = Vec::new();
        values.push(Value::Integer(count));
        let mut out: Vec<ExecutorRow> = Vec::new();
        out.push(ExecutorRow { rid: None, values });
        assert(rows_of(out@) =~= count_row(rows.len() as int));
        Ok(out)
    }
}

/// The rows an UPDATE adds, as a scan reads them back: the new values of
/// row `k` at record id `start + k`.
pub open spec fn updated_rows(vs: Seq<Seq<Value>>, start: int) -> Seq<RowView> {
    Seq::new(vs.len(), |k: int| RowView { rid: Some((start + k) as usize), values: vs[k] })
}

proof fn lemma_live_rows_updated(a: Seq<(TupleMeta, Tuple)>, b: Seq<(TupleMeta, Tuple)>, vs: Seq<Seq<Value>>, j: int)
    requires
        0 <= j <= vs.len(),
        a.len() == b.len() + vs.len(),
        forall|k: int| 0 <= k < vs.len() ==> {
            &&& (#[trigger] a[b.len() + k]).0 == TupleMeta { ts: 0, is_deleted: false }
            &&& a[b.len() + k].1.values@ == vs[k]
        },
    ensures
        live_rows(a, b.len() + j) == live_rows(a, b.len() as int) + updated_rows(vs, b.len() as int).take(j),
    decreases j,
{
    let base = live_rows(a, b.len() as int);
    let new_rows = updated_rows(vs, b.len() as int);
    if j == 0 {
        assert(base + new_rows.take(0) =~= base);
    } else {
        lemma_live_rows_updated(a, b, vs, j - 1);
        assert(a[b.len() + j - 1].0 == TupleMeta { ts: 0, is_deleted: false });
        assert(new_rows.take(j) =~= new_rows.take(j - 1).push(new_rows[j - 1]));
        assert(base + new_rows.take(j) =~= (base + new_rows.take(j - 1)).push(new_rows[j - 1]));
    }
}

proof fn lemma_update_values_len(es: Seq<PlannedExpression>, heap: Seq<(TupleMeta, Tuple)>, rows: Seq<RowView>, n: int)
    requires
        0 <= n,
    ensures
        update_values(es, heap, rows, n) matches Ok(vs) ==> vs.len() == n,
    decreases n,
{
    if n > 0 {
        lemma_update_values_len(es, heap, rows, n - 1);
    }
}

/// What a scan reads back after an UPDATE: what it read before, less the
/// updated rows, then their new values, in order, each at the next record
/// id.
pub proof fn lemma_scan_after_update(before: Catalog, after: Catalog, plan: UpdatePlan, rows: Seq<RowView>, res: Result<Seq<RowView>, ExecutionError>)
    requires
        update_effect(before, after, plan, rows, res),
        res is Ok,
        plan.table_oid < before.tables@.len(),
        before.tables@[plan.table_oid as int].table_heap.tuples@.len() <= usize::MAX,
    ensures
        scan_output(before, plan.table_oid) matches Ok(old_rows)
            && update_values(plan.expressions@, before.tables@[plan.table_oid as int].table_heap.tuples@, rows, rows.len() as int) matches Ok(vs)
            && scan_output(after, plan.table_oid) == Ok::<Seq<RowView>, ExecutionError>(
                old_rows.filter(kept_after_delete(rows)) + updated_rows(vs, before.tables@[plan.table_oid as int].table_heap.tuples@.len() as int),
            ),
{
    let oid = plan.table_oid as int;
    let b = before.tables@[oid].table_heap.tuples@;
    let a = after.tables@[oid].table_heap.tuples@;
    let vs = update_values(plan.expressions@, b, rows, rows.len() as int)->Ok_0;
    lemma_live_rows_after_delete(b, a, rows, b.len() as int);
    lemma_update_values_len(plan.expressions@, b, rows, rows.len() as int);
    lemma_live_rows_updated(a, b, vs, vs.len() as int);
    assert(updated_rows(vs, b.len() as int).take(vs.len() as int) =~= updated_rows(vs, b.len() as int));
}

} // verus!
