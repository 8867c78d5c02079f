use vstd::prelude::*;
use crate::catalog::catalog::{Catalog, entries_view};
use crate::catalog::error::{CatalogError, IndexId, TableIdentifier};
use crate::catalog::schema::Schema;
use crate::common::position::index_of;
use crate::query::executor::engine::{ExecutorRow, RowView, res_view, rows_of};
use crate::query::executor::error::ExecutionError;
use crate::query::executor::insert::count_row;
use crate::query::executor::seq_scan::{live_rows, scan_output};
use crate::query::planner::plan::DeletePlan;
use crate::storage::tuple::{Rid, Tuple, TupleMeta, key_of};
use crate::types::value::{Value, same_values};

verus! {

/// Some row refers to the record `r`.
pub open spec fn targets(rows: Seq<RowView>, r: int) -> bool {
    exists|i: int| 0 <= i < rows.len() && (#[trigger] rows[i]).rid == Some(r as usize)
}

/// Every row refers to a distinct live tuple of the heap.
pub open spec fn rows_target_live(heap: Seq<(TupleMeta, Tuple)>, rows: Seq<RowView>) -> bool {
    &&& forall|i: int| 0 <= i < rows.len() ==> {
        &&& (#[trigger] rows[i]).rid is Some
        &&& rows[i].rid->0 < heap.len()
        &&& !heap[rows[i].rid->0 as int].0.is_deleted
    }
    &&& forall|i: int, j: int| 0 <= i < j < rows.len() ==> (#[trigger] rows[i]).rid != (#[trigger] rows[j]).rid
}

/// `after` is the first `before.len()` tuples of the heap with the tuples
/// the rows refer to marked deleted, and every other tuple as it was.
pub open spec fn marks_deleted(before: Seq<(TupleMeta, Tuple)>, after: Seq<(TupleMeta, Tuple)>, rows: Seq<RowView>) -> bool {
    forall|r: int| 0 <= r < before.len() ==> if targets(rows, r) {
        &&& (#[trigger] after[r]).0 == TupleMeta { is_deleted: true, ..before[r].0 }
        &&& after[r].1.values@ == before[r].1.values@
    } else {
        after[r] == before[r]
    }
}

/// A filter keeps an increasing sequence increasing, and keeps only its
/// elements.
proof fn lemma_filter_increasing(s: Seq<int>, p: spec_fn(int) -> bool)
    requires
        forall|i: int, j: int| 0 <= i < j < s.len() ==> s[i] < s[j],
    ensures
        forall|i: int, j: int| 0 <= i < j < s.filter(p).len() ==> s.filter(p)[i] < s.filter(p)[j],
        forall|i: int| 0 <= i < s.filter(p).len() ==> s.contains(#[trigger] s.filter(p)[i]),
    decreases s.len(),
{
    reveal(Seq::filter);
    if s.len() > 0 {
        let t = s.drop_last();
        lemma_filter_increasing(t, p);
        assert forall|i: int| 0 <= i < t.filter(p).len() implies #[trigger] t.filter(p)[i] < s.last() && s.contains(t.filter(p)[i]) by {
            assert(t.contains(t.filter(p)[i]));
            let k = choose|k: int| 0 <= k < t.len() && t[k] == t.filter(p)[i];
            assert(s[k] == t[k]);
        }
        assert(s.contains(s.last())) by {
            assert(s[s.len() - 1] == s.last());
        }
    }
}

/// A table's indexes are listed once each.
proof fn lemma_indexes_of_distinct(cat: Catalog, name: Seq<char>)
    ensures
        forall|i: int, j: int| 0 <= i < j < cat.indexes_of(name).len() ==> cat.indexes_of(name)[i] != cat.indexes_of(name)[j],
{
    let s = Seq::new(cat.indexes@.len(), |i: int| i);
    lemma_filter_increasing(s, cat.on_table(name));
    assert(cat.indexes_of(name) == s.filter(cat.on_table(name)));
}

/// Index entries without the first entry `(key, rid)`, if there is one.
pub open spec fn without_entry(es: Seq<(Seq<Value>, Rid)>, key: Seq<Value>, rid: Rid) -> Seq<(Seq<Value>, Rid)>
    decreases es.len(),
{
    if es.len() == 0 {
        es
    } else if same_values(es[0].0, key) && es[0].1 == rid {
        es.drop_first()
    } else {
        without_entry(es.drop_first(), key, rid).insert(0, es[0])
    }
}

proof fn lemma_without_absent(es: Seq<(Seq<Value>, Rid)>, key: Seq<Value>, rid: Rid)
    requires
        forall|k: int| 0 <= k < es.len() ==> !(same_values(#[trigger] es[k].0, key) && es[k].1 == rid),
    ensures
        without_entry(es, key, rid) == es,
    decreases es.len(),
{
    if es.len() > 0 {
        assert(!(same_values(es[0].0, key) && es[0].1 == rid));
        assert forall|k: int| 0 <= k < es.drop_first().len() implies !(same_values(#[trigger] es.drop_first()[k].0, key) && es.drop_first()[k].1 == rid) by {
            assert(es.drop_first()[k] == es[k + 1]);
        }
        lemma_without_absent(es.drop_first(), key, rid);
        assert(es.drop_first().insert(0, es[0]) =~= es);
    }
}

proof fn lemma_without_first(es: Seq<(Seq<Value>, Rid)>, key: Seq<Value>, rid: Rid, p: int)
    requires
        0 <= p < es.len(),
        same_values(es[p].0, key) && es[p].1 == rid,
        forall|k: int| 0 <= k < p ==> !(same_values(#[trigger] es[k].0, key) && es[k].1 == rid),
    ensures
        without_entry(es, key, rid) == es.remove(p),
    decreases p,
{
    if p == 0 {
        assert(es.drop_first() =~= es.remove(0));
    } else {
        assert(!(same_values(es[0].0, key) && es[0].1 == rid));
        assert forall|k: int| 0 <= k < p - 1 implies !(same_values(#[trigger] es.drop_first()[k].0, key) && es.drop_first()[k].1 == rid) by {
            assert(es.drop_first()[k] == es[k + 1]);
        }
        assert(es.drop_first()[p - 1] == es[p]);
        lemma_without_first(es.drop_first(), key, rid, p - 1);
        assert(es.drop_first().remove(p - 1).insert(0, es[0]) =~= es.remove(p));
    }
}

/// The indexes of a table, each with the columns it keys on and its key
/// schema.
pub fn table_index_keys(catalog: &Catalog, table_name: &str) -> (res: Vec<(IndexId, Vec<usize>, Schema)>)
    requires
        catalog.wf(),
        catalog.table_named(table_name@) is Some,
    ensures
        res@.len() == catalog.indexes_of(table_name@).len(),
        forall|k: int| 0 <= k < res@.len() ==> {
            let x = catalog.indexes_of(table_name@)[k];
            &&& (#[trigger] res@[k]).0 == x
            &&& 0 <= x < catalog.indexes@.len()
            &&& res@[k].1@ == catalog.indexes@[x].index.metadata.key_attrs@
            &&& catalog.indexes@[x].index.metadata.table_name@ == table_name@
        },
        forall|i: int, j: int| 0 <= i < j < res@.len() ==> res@[i].0 != res@[j].0,
{
    proof {
        lemma_indexes_of_distinct(*catalog, table_name@);
    }
    let infos = match catalog.get_table_indexes(table_name) {
        Ok(v) => v,
        Err(_) => {
            assert(false);
            Vec::new()
        },
    };
    let mut res: Vec<(IndexId, Vec<usize>, Schema)> = Vec::new();
    let mut k: usize = 0;
    while k < infos.len()
        invariant
            k <= infos@.len(),
            catalog.wf(),
            infos@.len() == catalog.indexes_of(table_name@).len(),
            forall|j: int| 0 <= j < infos@.len() ==> *#[trigger] infos@[j] == catalog.indexes@[catalog.indexes_of(table_name@)[j]],
            forall|j: int| 0 <= j < catalog.indexes_of(table_name@).len() ==> {
                &&& 0 <= #[trigger] catalog.indexes_of(table_name@)[j] < catalog.indexes@.len()
                &&& catalog.indexes@[catalog.indexes_of(table_name@)[j]].index.metadata.table_name@ == table_name@
            },
            res@.len() == k,
            forall|j: int| 0 <= j < k ==> {
                let x = catalog.indexes_of(table_name@)[j];
                &&& (#[trigger] res@[j]).0 == x
                &&& res@[j].1@ == catalog.indexes@[x].index.metadata.key_attrs@
            },
        decreases infos@.len() - k,
    {
        let info = infos[k];
        let attrs = crate::catalog::schema::clone_usizes(info.index.metadata.key_attrs.as_slice());
        let key_schema = info.index.metadata.key_schema.clone();
        assert(info.index_oid == catalog.indexes_of(table_name@)[index_of(k)]);
        res.push((info.index_oid, attrs, key_schema));
        k = k + 1;
    }
    res
}

/// An index of the table at position `t` keys on columns of that table.
pub proof fn lemma_index_keys_fit(cat: Catalog, t: int, x: int)
    requires
        cat.wf(),
        0 <= t < cat.tables@.len(),
        0 <= x < cat.indexes@.len(),
        cat.indexes@[x].index.metadata.table_name@ == cat.tables@[t].name@,
    ensures
        forall|k: int| 0 <= k < cat.indexes@[x].index.metadata.key_attrs@.len()
            ==> #[trigger] cat.indexes@[x].index.metadata.key_attrs@[k] < cat.tables@[t].schema.columns@.len(),
{
    let tt = choose|tt: int| 0 <= tt < cat.tables@.len()
        && (#[trigger] cat.tables@[tt]).name@ == (#[trigger] cat.indexes@[x]).index.metadata.table_name@
        && forall|k: int| 0 <= k < cat.indexes@[x].index.metadata.key_attrs@.len()
            ==> #[trigger] cat.indexes@[x].index.metadata.key_attrs@[k] < cat.tables@[tt].schema.columns@.len();
    if tt != t {
        if tt < t {
            assert(cat.tables@[tt].name@ != cat.tables@[t].name@);
        } else {
            assert(cat.tables@[t].name@ != cat.tables@[tt].name@);
        }
    }
}

/// The indexes of the table `t` keep their metadata; those of other tables
/// are untouched.
pub open spec fn indexes_kept(before: Catalog, after: Catalog, t: int) -> bool {
    &&& after.indexes@.len() == before.indexes@.len()
    &&& forall|x: int| 0 <= x < before.indexes@.len() ==> {
        &&& (#[trigger] after.indexes@[x]).index.metadata == before.indexes@[x].index.metadata
        &&& after.indexes@[x].index_oid == before.indexes@[x].index_oid
        &&& (before.indexes@[x].index.metadata.table_name@ != before.tables@[t].name@ ==> after.indexes@[x] == before.indexes@[x])
    }
}

/// Removes the index entries of the tuple `rid`, whose values are `values`,
/// from every index in `keys`: from each, the first entry of the tuple's key
/// and `rid`.
pub fn delete_index_entries(catalog: &mut Catalog, keys: &Vec<(IndexId, Vec<usize>, Schema)>, schema: &Schema, tuple: &Tuple, rid: Rid, t: Ghost<int>)
    requires
        old(catalog).wf(),
        0 <= t@ < old(catalog).tables@.len(),
        tuple.values@.len() == old(catalog).tables@[t@].schema.columns@.len(),
        forall|k: int| 0 <= k < keys@.len() ==> {
            let x = (#[trigger] keys@[k]).0 as int;
            &&& 0 <= x < old(catalog).indexes@.len()
            &&& keys@[k].1@ == old(catalog).indexes@[x].index.metadata.key_attrs@
            &&& old(catalog).indexes@[x].index.metadata.table_name@ == old(catalog).tables@[t@].name@
        },
        forall|i: int, j: int| 0 <= i < j < keys@.len() ==> keys@[i].0 != keys@[j].0,
    ensures
        final(catalog).wf(),
        final(catalog).tables@ == old(catalog).tables@,
        indexes_kept(*old(catalog), *final(catalog), t@),
        forall|k: int| 0 <= k < keys@.len() ==> entries_view(final(catalog).indexes@[(#[trigger] keys@[k]).0 as int].index.entries@)
            == without_entry(entries_view(old(catalog).indexes@[keys@[k].0 as int].index.entries@), key_of(tuple.values@, keys@[k].1@), rid),
        forall|x: int| 0 <= x < old(catalog).indexes@.len() && (forall|k: int| 0 <= k < keys@.len() ==> (#[trigger] keys@[k]).0 != x)
            ==> final(catalog).indexes@[x] == old(catalog).indexes@[x],
{
    let ghost start = *catalog;
    let mut k: usize = 0;
    while k < keys.len()
        invariant
            k <= keys@.len(),
            catalog.wf(),
            catalog.tables@ == start.tables@,
            start.wf(),
            0 <= t@ < start.tables@.len(),
            tuple.values@.len() == start.tables@[t@].schema.columns@.len(),
            indexes_kept(start, *catalog, t@),
            catalog.indexes@.len() == start.indexes@.len(),
            forall|j: int| 0 <= j < keys@.len() ==> {
                let x = (#[trigger] keys@[j]).0 as int;
                &&& 0 <= x < start.indexes@.len()
                &&& keys@[j].1@ == start.indexes@[x].index.metadata.key_attrs@
                &&& start.indexes@[x].index.metadata.table_name@ == start.tables@[t@].name@
            },
            forall|i: int, j: int| 0 <= i < j < keys@.len() ==> keys@[i].0 != keys@[j].0,
            forall|j: int| 0 <= j < k ==> entries_view(catalog.indexes@[(#[trigger] keys@[j]).0 as int].index.entries@)
                == without_entry(entries_view(start.indexes@[keys@[j].0 as int].index.entries@), key_of(tuple.values@, keys@[j].1@), rid),
            forall|j: int| k <= j < keys@.len() ==> catalog.indexes@[(#[trigger] keys@[j]).0 as int] == start.indexes@[keys@[j].0 as int],
            forall|x: int| 0 <= x < start.indexes@.len() && (forall|j: int| 0 <= j < keys@.len() ==> (#[trigger] keys@[j]).0 != x)
                ==> catalog.indexes@[x] == start.indexes@[x],
        decreases keys@.len() - k,
    {
        let (oid, attrs, key_schema) = &keys[k];
        proof { lemma_index_keys_fit(start, t@, *oid as int); }
        let key = tuple.key_from_tuple(schema, key_schema, attrs.as_slice());
        let ghost pre = *catalog;
        let _ = catalog.index_delete_entry(*oid, &key, rid);
        proof {
            let x = *oid as int;
            let raw = pre.indexes@[x].index.entries@;
            assert(pre.indexes@[x] == start.indexes@[x]);
            if exists|p: int| 0 <= p < raw.len() && same_values(#[trigger] raw[p].0@, key.values@) && raw[p].1 == rid {
                let p = choose|p: int| {
                    &&& 0 <= p < raw.len()
                    &&& same_values(#[trigger] raw[p].0@, key.values@)
                    &&& raw[p].1 == rid
                    &&& forall|i: int| 0 <= i < p ==> !(same_values(#[trigger] raw[i].0@, key.values@) && raw[i].1 == rid)
                    &&& catalog.indexes@[x].index.entries@ == raw.remove(p)
                };
                assert forall|i: int| 0 <= i < p implies !(same_values(#[trigger] entries_view(raw)[i].0, key.values@) && entries_view(raw)[i].1 == rid) by {
                    assert(entries_view(raw)[i] == (raw[i].0@, raw[i].1));
                }
                lemma_without_first(entries_view(raw), key.values@, rid, p);
                assert(entries_view(raw.remove(p)) =~= entries_view(raw).remove(p));
            } else {
                assert forall|i: int| 0 <= i < entries_view(raw).len() implies !(same_values(#[trigger] entries_view(raw)[i].0, key.values@) && entries_view(raw)[i].1 == rid) by {
                    assert(entries_view(raw)[i] == (raw[i].0@, raw[i].1));
                }
                lemma_without_absent(entries_view(raw), key.values@, rid);
            }
            assert forall|x2: int| 0 <= x2 < start.indexes@.len() implies {
                &&& (#[trigger] catalog.indexes@[x2]).index.metadata == start.indexes@[x2].index.metadata
                &&& catalog.indexes@[x2].index_oid == start.indexes@[x2].index_oid
                &&& (start.indexes@[x2].index.metadata.table_name@ != start.tables@[t@].name@ ==> catalog.indexes@[x2] == start.indexes@[x2])
            } by {
                if x2 != x {
                    assert(catalog.indexes@[x2] == pre.indexes@[x2]);
                }
            }
            assert forall|j: int| 0 <= j < k + 1 implies entries_view(catalog.indexes@[(#[trigger] keys@[j]).0 as int].index.entries@)
                == without_entry(entries_view(start.indexes@[keys@[j].0 as int].index.entries@), key_of(tuple.values@, keys@[j].1@), rid) by {
                if j < k {
                    assert(keys@[j].0 != keys@[k as int].0);
                    assert(catalog.indexes@[keys@[j].0 as int] == pre.indexes@[keys@[j].0 as int]);
                }
            }
            assert forall|j: int| k + 1 <= j < keys@.len() implies catalog.indexes@[(#[trigger] keys@[j]).0 as int] == start.indexes@[keys@[j].0 as int] by {
                assert(keys@[k as int].0 != keys@[j].0);
                assert(catalog.indexes@[keys@[j].0 as int] == pre.indexes@[keys@[j].0 as int]);
            }
            assert forall|x2: int| 0 <= x2 < start.indexes@.len() && (forall|j: int| 0 <= j < keys@.len() ==> (#[trigger] keys@[j]).0 != x2)
                implies catalog.indexes@[x2] == start.indexes@[x2] by {
                assert(keys@[k as int].0 != x2);
                assert(catalog.indexes@[x2] == pre.indexes@[x2]);
            }
        }
        k = k + 1;
    }
}

/// Index entries after the entry of each of the first `n` rows is removed
/// in turn: for a row, the first entry of its tuple's key (the tuple's
/// values at `attrs`) and its record id.
pub open spec fn without_rows(es: Seq<(Seq<Value>, Rid)>, heap: Seq<(TupleMeta, Tuple)>, attrs: Seq<usize>, rows: Seq<RowView>, n: int) -> Seq<(Seq<Value>, Rid)>
    decreases n,
{
    if n <= 0 {
        es
    } else {
        let rid = rows[n - 1].rid->0;
        without_entry(without_rows(es, heap, attrs, rows, n - 1), key_of(heap[rid as int].1.values@, attrs), rid)
    }
}

/// What running a DELETE over `rows` does: where its table is missing, an
/// error and no change; else the tuple of every row marked deleted and their
/// count returned.
pub open spec fn delete_effect(before_cat: Catalog, after_cat: Catalog, plan: DeletePlan, rows: Seq<RowView>, res: Result<Seq<RowView>, ExecutionError>) -> bool {
    if plan.table_oid >= before_cat.tables@.len() {
        &&& res == Err::<Seq<RowView>, ExecutionError>(ExecutionError::Catalog(CatalogError::TableNotFound(TableIdentifier::Oid(plan.table_oid))))
        &&& after_cat == before_cat
    } else {
        let oid = plan.table_oid as int;
        let before = before_cat.tables@[oid];
        let after = after_cat.tables@[oid];
        &&& res == Ok::<Seq<RowView>, ExecutionError>(count_row(rows.len() as int))
        &&& after_cat.tables@.len() == before_cat.tables@.len()
        &&& forall|i: int| 0 <= i < before_cat.tables@.len() && i != oid ==> #[trigger] after_cat.tables@[i] == before_cat.tables@[i]
        &&& after.schema == before.schema && after.name == before.name && after.table_oid == before.table_oid
        &&& after.table_heap.tuples@.len() == before.table_heap.tuples@.len()
        &&& marks_deleted(before.table_heap.tuples@, after.table_heap.tuples@, rows)
        &&& indexes_kept(before_cat, after_cat, oid)
        &&& forall|k: int| 0 <= k < before_cat.indexes_of(before.name@).len() ==> {
            let x = #[trigger] before_cat.indexes_of(before.name@)[k];
            entries_view(after_cat.indexes@[x].index.entries@) == without_rows(
                entries_view(before_cat.indexes@[x].index.entries@),
                before.table_heap.tuples@,
                before_cat.indexes@[x].index.metadata.key_attrs@,
                rows,
                rows.len() as int,
            )
        }
    }
}

/// Marks the tuples of its input rows deleted.
pub struct DeleteExecutor<'p> {
    pub plan: &'p DeletePlan,
    pub output_schema: &'p Schema,
    pub input: Vec<ExecutorRow>,
    pub done: bool,
}

impl<'p> DeleteExecutor<'p> {
    pub fn new(plan: &'p DeletePlan, output_schema: &'p Schema, input: Vec<ExecutorRow>) -> (res: Self)
        ensures
            res.plan == plan,
            res.output_schema == output_schema,
            res.input@ == input@,
            !res.done,
    {
        DeleteExecutor { plan, output_schema, input, done: false }
    }

    /// Deletes the tuple of every input row, once, with its index entries;
    /// later calls produce nothing.
    pub fn next(&mut self, catalog: &mut Catalog, batch_size: usize) -> (res: Result<Vec<ExecutorRow>, ExecutionError>)
        requires
            old(catalog).wf(),
            old(self).input@.len() <= i32::MAX,
            !old(self).done && old(self).plan.table_oid < old(catalog).tables@.len() ==>
                rows_target_live(old(catalog).tables@[old(self).plan.table_oid as int].table_heap.tuples@, rows_of(old(self).input@)),
        ensures
            final(catalog).wf(),
            final(self).plan == old(self).plan,
            final(self).input@ == old(self).input@,
            final(self).done,
            old(self).done ==> (res matches Ok(b) && b@.len() == 0 && *final(catalog) == *old(catalog)),
            !old(self).done ==> delete_effect(*old(catalog), *final(catalog), *old(self).plan, rows_of(old(self).input@), res_view(res)),
    {
        if self.done {
            return Ok(Vec::new());
        }
        self.done = true;
        let oid = self.plan.table_oid;
        let (name, schema) = match catalog.get_tbl_by_oid(oid) {
            Ok(info) => (info.name.clone(), info.schema()),
            Err(e) => return Err(ExecutionError::Catalog(e)),
        };
        let ghost t = oid as int;
        let ghost rows = rows_of(self.input@);
        let ghost start = *catalog;
        let ghost before = start.tables@[t];
        assert(catalog.table_named(name@) is Some) by {
            assert(catalog.tables@[t].name@ == name@);
        }
        let keys = table_index_keys(catalog, name.as_str());
        let heap_len: usize = catalog.tables[oid as usize].table_heap.num_tuples();
        let mut count: i32 = 0;
        let mut i: usize = 0;
        while i < self.input.len()
            invariant
                i <= self.input@.len(),
                self.input@.len() <= i32::MAX,
                count == i,
                rows == rows_of(self.input@),
                oid == self.plan.table_oid,
                t == oid as int,
                0 <= t < start.tables@.len(),
                start.wf(),
                catalog.wf(),
                before == start.tables@[t],
                heap_len == before.table_heap.tuples@.len(),
                name@ == before.name@,
                rows_target_live(before.table_heap.tuples@, rows),
                catalog.tables@.len() == start.tables@.len(),
                forall|x: int| 0 <= x < start.tables@.len() && x != t ==> #[trigger] catalog.tables@[x] == start.tables@[x],
                catalog.tables@[t].schema == before.schema,
                catalog.tables@[t].name == before.name,
                catalog.tables@[t].table_oid == before.table_oid,
                catalog.tables@[t].table_heap.tuples@.len() == before.table_heap.tuples@.len(),
                marks_deleted(before.table_heap.tuples@, catalog.tables@[t].table_heap.tuples@, rows.subrange(0, index_of(i))),
                keys@.len() == start.indexes_of(before.name@).len(),
                forall|k: int| 0 <= k < keys@.len() ==> (#[trigger] keys@[k]).0 as int == start.indexes_of(before.name@)[k],
                forall|i2: int, j2: int| 0 <= i2 < j2 < keys@.len() ==> keys@[i2].0 != keys@[j2].0,
                forall|k: int| 0 <= k < keys@.len() ==> entries_view(catalog.indexes@[(#[trigger] keys@[k]).0 as int].index.entries@)
                    == without_rows(entries_view(start.indexes@[keys@[k].0 as int].index.entries@), before.table_heap.tuples@, keys@[k].1@, rows, index_of(i)),
                indexes_kept(start, *catalog, t),
                forall|k: int| 0 <= k < keys@.len() ==> {
                    let x = (#[trigger] keys@[k]).0 as int;
                    &&& 0 <= x < catalog.indexes@.len()
                    &&& keys@[k].1@ == catalog.indexes@[x].index.metadata.key_attrs@
                    &&& catalog.indexes@[x].index.metadata.table_name@ == catalog.tables@[t].name@
                },
            decreases self.input@.len() - i,
        {
            assert(rows[index_of(i)] == self.input@[index_of(i)]@);
            let rid = match self.input[i].rid {
                Some(r) => r,
                None => {
                    assert(false);
                    return Err(ExecutionError::MissingRid);
                },
            };
            proof {
                assert(!targets(rows.subrange(0, index_of(i)), rid as int)) by {
                    if targets(rows.subrange(0, index_of(i)), rid as int) {
                        let j = choose|j: int| 0 <= j < index_of(i) && (#[trigger] rows.subrange(0, index_of(i))[j]).rid == Some(rid);
                        assert(rows.subrange(0, index_of(i))[j] == rows[j]);
                    }
                }
            }
            let (meta, tuple) = match catalog.tables[oid as usize].table_heap.get_tuple(rid) {
                Ok(x) => x,
                Err(e) => {
                    assert(false);
                    return Err(ExecutionError::TableHeap(e));
                },
            };
            let ghost mid = *catalog;
            delete_index_entries(catalog, &keys, &schema, &tuple, rid, Ghost(t));
            let ghost pre = *catalog;
            let _ = catalog.update_tuple_meta(oid, rid, meta.delete());
            proof {
                let done_rows = rows.subrange(0, index_of(i) + 1);
                let cur = catalog.tables@[t].table_heap.tuples@;
                let prev = pre.tables@[t].table_heap.tuples@;
                assert forall|r: int| 0 <= r < before.table_heap.tuples@.len() implies if targets(done_rows, r) {
                    &&& (#[trigger] cur[r]).0 == TupleMeta { is_deleted: true, ..before.table_heap.tuples@[r].0 }
                    &&& cur[r].1.values@ == before.table_heap.tuples@[r].1.values@
                } else {
                    cur[r] == before.table_heap.tuples@[r]
                } by {
                    if r == rid as int {
                        assert(done_rows[index_of(i)].rid == Some(rid));
                        assert(targets(done_rows, r));
                        assert(!targets(rows.subrange(0, index_of(i)), r));
                        assert(prev[r] == before.table_heap.tuples@[r]);
                    } else {
                        assert(cur[r] == prev[r]);
                        if targets(done_rows, r) {
                            let j = choose|j: int| 0 <= j < done_rows.len() && (#[trigger] done_rows[j]).rid == Some(r as usize);
                            assert(done_rows[index_of(i)].rid == Some(rid));
                            assert((r as usize) as int == r);
                            assert(r as usize != rid);
                            assert(j < index_of(i));
                            assert(rows.subrange(0, index_of(i))[j] == done_rows[j]);
                            assert(targets(rows.subrange(0, index_of(i)), r));
                        } else {
                            if targets(rows.subrange(0, index_of(i)), r) {
                                let j = choose|j: int| 0 <= j < index_of(i) && (#[trigger] rows.subrange(0, index_of(i))[j]).rid == Some(r as usize);
                                assert(done_rows[j] == rows.subrange(0, index_of(i))[j]);
                            }
                        }
                    }
                }
                assert forall|x: int| 0 <= x < start.indexes@.len() implies {
                    &&& (#[trigger] catalog.indexes@[x]).index.metadata == start.indexes@[x].index.metadata
                    &&& catalog.indexes@[x].index_oid == start.indexes@[x].index_oid
                    &&& (start.indexes@[x].index.metadata.table_name@ != start.tables@[t].name@ ==> catalog.indexes@[x] == start.indexes@[x])
                } by {
                    assert(catalog.indexes@[x] == pre.indexes@[x]);
                    assert(pre.indexes@[x].index.metadata == mid.indexes@[x].index.metadata);
                }
            }
            count = count + 1;
            i = i + 1;
        }
        assert(rows.subrange(0, index_of(i)) =~= rows);
        proof {
            assert forall|k: int| 0 <= k < start.indexes_of(before.name@).len() implies {
                let x = #[trigger] start.indexes_of(before.name@)[k];
                entries_view(catalog.indexes@[x].index.entries@) == without_rows(
                    entries_view(start.indexes@[x].index.entries@),
                    before.table_heap.tuples@,
                    start.indexes@[x].index.metadata.key_attrs@,
                    rows,
                    rows.len() as int,
                )
            } by {
                let x = start.indexes_of(before.name@)[k];
                assert(keys@[k].0 as int == x);
                assert(keys@[k].1@ == catalog.indexes@[x].index.metadata.key_attrs@);
                assert(catalog.indexes@[x].index.metadata == start.indexes@[x].index.metadata);
            }
        }
        let mut values: Vec<Value> = Vec::new();
        values.push(Value::Integer(count));
        let mut out: Vec<ExecutorRow> = Vec::new();
        out.push(ExecutorRow { rid: None, values });
        assert(rows_of(out@) =~= count_row(rows.len() as int));
        Ok(out)
    }
}

/// A row that a scan still reads after a DELETE of `rows`: one no deleted
/// row refers to.
pub open spec fn kept_after_delete(rows: Seq<RowView>) -> spec_fn(RowView) -> bool {
    |r: RowView| !(r.rid matches Some(i) && targets(rows, i as int))
}

pub(crate) proof fn lemma_live_rows_after_delete(b: Seq<(TupleMeta, Tuple)>, a: Seq<(TupleMeta, Tuple)>, rows: Seq<RowView>, n: int)
    requires
        0 <= n <= b.len(),
        a.len() >= b.len(),
        b.len() <= usize::MAX,
        marks_deleted(b, a, rows),
    ensures
        live_rows(a, n) == live_rows(b, n).filter(kept_after_delete(rows)),
    decreases n,
{
    broadcast use Seq::lemma_filter_push;
    let p = kept_after_delete(rows);
    if n == 0 {
        reveal(Seq::filter);
        assert(live_rows(b, 0).filter(p) =~= Seq::<RowView>::empty());
    } else {
        lemma_live_rows_after_delete(b, a, rows, n - 1);
        let r = n - 1;
        if !b[r].0.is_deleted {
            let row = RowView { rid: Some(r as usize), values: b[r].1.values@ };
            assert(live_rows(b, n) == live_rows(b, r).push(row));
            assert(p(row) == !targets(rows, r));
        }
    }
}

/// What a scan reads back after a DELETE: what it read before, less the
/// rows the DELETE was given.
pub proof fn lemma_scan_after_delete(before: Catalog, after: Catalog, plan: DeletePlan, rows: Seq<RowView>, res: Result<Seq<RowView>, ExecutionError>)
    requires
        delete_effect(before, after, plan, rows, res),
        plan.table_oid < before.tables@.len(),
        before.tables@[plan.table_oid as int].table_heap.tuples@.len() <= usize::MAX,
    ensures
        scan_output(before, plan.table_oid) matches Ok(old_rows)
            && scan_output(after, plan.table_oid) == Ok::<Seq<RowView>, ExecutionError>(old_rows.filter(kept_after_delete(rows))),
{
    let oid = plan.table_oid as int;
    let b = before.tables@[oid].table_heap.tuples@;
    let a = after.tables@[oid].table_heap.tuples@;
    lemma_live_rows_after_delete(b, a, rows, b.len() as int);
}

} // verus!
