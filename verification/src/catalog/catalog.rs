use vstd::prelude::*;
use crate::catalog::error::{CatalogError, IndexId, IndexIdentifier, TableId, TableIdentifier};
use crate::catalog::index::IndexInfo;
use crate::catalog::schema::{Schema, all_well_formed, columns_fit};
use crate::catalog::table::TableInfo;
use crate::storage::error::TableHeapError;
use crate::storage::index::{Index, IndexMetadata};
use crate::storage::table_heap::TableHeap;
use crate::storage::tuple::{Rid, Tuple, TupleMeta, key_of};
use crate::types::value::Value;
use crate::common::strings::str_eq;

verus! {

/// The tables and indexes of a database. A table's oid is its position in
/// `tables`, an index's oid its position in `indexes`.
#[derive(Debug)]
pub struct Catalog {
    pub tables: Vec<TableInfo>,
    pub indexes: Vec<IndexInfo>,
}

/// The entries of an index over columns `attrs` built from the first `n`
/// tuples of a heap: one per live tuple, in record order.
pub open spec fn built_entries(tuples: Seq<(TupleMeta, Tuple)>, attrs: Seq<usize>, n: int) -> Seq<(Seq<Value>, Rid)>
    decreases n,
{
    if n <= 0 {
        Seq::empty()
    } else {
        let rest = built_entries(tuples, attrs, n - 1);
        if tuples[n - 1].0.is_deleted {
            rest
        } else {
            rest.push((key_of(tuples[n - 1].1.values@, attrs), (n - 1) as usize))
        }
    }
}

pub open spec fn entries_view(e: Seq<(Vec<Value>, Rid)>) -> Seq<(Seq<Value>, Rid)> {
    e.map_values(|x: (Vec<Value>, Rid)| (x.0@, x.1))
}

impl Catalog {
    /// The catalog's invariant: oids are positions, table names are
    /// distinct, index names are distinct within a table, every index
    /// belongs to a table and keys on its columns, and every stored tuple has
    /// one value per column of its table.
    pub open spec fn wf(&self) -> bool {
        &&& self.tables@.len() <= u32::MAX
        &&& self.indexes@.len() <= u32::MAX
        &&& forall|i: int| 0 <= i < self.tables@.len() ==> (#[trigger] self.tables@[i]).table_oid == i
        &&& forall|i: int, j: int| 0 <= i < j < self.tables@.len() ==> (#[trigger] self.tables@[i]).name@ != (#[trigger] self.tables@[j]).name@
        &&& forall|i: int| 0 <= i < self.tables@.len() ==> {
            let t = #[trigger] self.tables@[i];
            &&& all_well_formed(t.schema.columns@)
            &&& columns_fit(t.schema.columns@.len())
            &&& forall|r: int| 0 <= r < t.table_heap.len() ==> (#[trigger] t.table_heap.values(r)).len() == t.schema.columns@.len()
        }
        &&& forall|i: int| 0 <= i < self.indexes@.len() ==> (#[trigger] self.indexes@[i]).index_oid == i
        &&& forall|i: int| 0 <= i < self.indexes@.len() ==> exists|t: int| 0 <= t < self.tables@.len()
            && (#[trigger] self.tables@[t]).name@ == (#[trigger] self.indexes@[i]).index.metadata.table_name@
            && forall|k: int| 0 <= k < self.indexes@[i].index.metadata.key_attrs@.len()
                ==> #[trigger] self.indexes@[i].index.metadata.key_attrs@[k] < self.tables@[t].schema.columns@.len()
        &&& forall|i: int, j: int| 0 <= i < j < self.indexes@.len()
            && (#[trigger] self.indexes@[i]).index.metadata.table_name@ == (#[trigger] self.indexes@[j]).index.metadata.table_name@
            ==> self.indexes@[i].index.metadata.name@ != self.indexes@[j].index.metadata.name@
    }

    /// The position of the table named `name`, if any.
    pub open spec fn table_named(&self, name: Seq<char>) -> Option<int> {
        if exists|i: int| 0 <= i < self.tables@.len() && (#[trigger] self.tables@[i]).name@ == name {
            Some(choose|i: int| 0 <= i < self.tables@.len() && (#[trigger] self.tables@[i]).name@ == name)
        } else {
            None
        }
    }

    /// Whether the index at position `i` belongs to the table named `name`.
    pub open spec fn on_table(&self, name: Seq<char>) -> spec_fn(int) -> bool {
        |i: int| self.indexes@[i].index.metadata.table_name@ == name
    }

    /// The positions, in order, of the indexes of the table named `name`.
    pub open spec fn indexes_of(&self, name: Seq<char>) -> Seq<int> {
        Seq::new(self.indexes@.len(), |i: int| i).filter(self.on_table(name))
    }

    /// An empty catalog.
    pub fn new() -> (res: Self)
        ensures
            res.wf(),
            res.tables@.len() == 0,
            res.indexes@.len() == 0,
    {
        Catalog { tables: Vec::new(), indexes: Vec::new() }
    }

    /// The position of the table named `name`.
    fn find_table(&self, name: &str) -> (res: Option<usize>)
        requires
            self.wf(),
        ensures
            res == (match self.table_named(name@) {
                Some(i) => Some(i as usize),
                None => None::<usize>,
            }),
            res matches Some(i) ==> i < self.tables@.len() && self.tables@[i as int].name@ == name@,
    {
        let mut i: usize = 0;
        while i < self.tables.len()
            invariant
                self.wf(),
                i <= self.tables@.len(),
                forall|j: int| 0 <= j < i ==> (#[trigger] self.tables@[j]).name@ != name@,
            decreases self.tables@.len() - i,
        {
            if str_eq(self.tables[i].name.as_str(), name) {
                proof {
                    let c = choose|k: int| 0 <= k < self.tables@.len() && (#[trigger] self.tables@[k]).name@ == name@;
                    if c != i {
                        if c < i {
                            assert(self.tables@[c].name@ != self.tables@[i as int].name@);
                        } else {
                            assert(self.tables@[i as int].name@ != self.tables@[c].name@);
                        }
                    }
                }
                return Some(i);
            }
            i = i + 1;
        }
        None
    }

    /// Adds a table named `name` with `schema` and no tuples; refused when
    /// a table of that name exists.
    pub fn create_tbl(&mut self, name: String, schema: Schema) -> (res: Result<&TableInfo, CatalogError>)
        requires
            old(self).wf(),
            old(self).tables@.len() < u32::MAX,
            all_well_formed(schema.columns@),
            columns_fit(schema.columns@.len()),
        ensures
            final(self).wf(),
            final(self).indexes@ == old(self).indexes@,
            old(self).table_named(name@) is Some ==> {
                &&& *final(self) == *old(self)
                &&& (res matches Err(CatalogError::DuplicateTable(n)) && n == name)
            },
            old(self).table_named(name@) is None ==> {
                &&& final(self).tables@ == old(self).tables@.push(
                    TableInfo { schema, name, table_heap: TableHeap { tuples: final(self).tables@.last().table_heap.tuples }, table_oid: old(self).tables@.len() as u32 },
                )
                &&& final(self).tables@.last().table_heap.len() == 0
                &&& (res matches Ok(t) && *t == final(self).tables@.last())
            },
    {
        if self.find_table(name.as_str()).is_some() {
            return Err(CatalogError::DuplicateTable(name));
        }
        let table_oid = self.tables.len() as u32;
        let table_info = TableInfo::new(schema, name, TableHeap::new(), table_oid);
        self.tables.push(table_info);
        proof {
            let n = self.tables@.len() - 1;
            assert forall|i: int, j: int| 0 <= i < j < self.tables@.len() implies (#[trigger] self.tables@[i]).name@ != (#[trigger] self.tables@[j]).name@ by {
                if j == n {
                    assert(old(self).tables@[i] == self.tables@[i]);
                    assert(self.tables@[i].name@ != name@);
                }
            }
            assert forall|i: int| 0 <= i < self.indexes@.len() implies exists|t: int| 0 <= t < self.tables@.len()
                && (#[trigger] self.tables@[t]).name@ == (#[trigger] self.indexes@[i]).index.metadata.table_name@ by {
                let t = choose|t: int| 0 <= t < old(self).tables@.len()
                    && (#[trigger] old(self).tables@[t]).name@ == old(self).indexes@[i].index.metadata.table_name@;
                assert(self.tables@[t] == old(self).tables@[t]);
            }
        }
        Ok(&self.tables[self.tables.len() - 1])
    }

    /// The table named `name`.
    pub fn get_tbl_by_name(&self, name: &str) -> (res: Result<&TableInfo, CatalogError>)
        requires
            self.wf(),
        ensures
            self.table_named(name@) matches Some(i) ==> (res matches Ok(t) && *t == self.tables@[i]),
            self.table_named(name@) is None ==> (res matches Err(CatalogError::TableNotFound(TableIdentifier::Name(n))) && n@ == name@),
    {
        match self.find_table(name) {
            Some(i) => Ok(&self.tables[i]),
            None => Err(CatalogError::TableNotFound(TableIdentifier::Name(name.to_owned()))),
        }
    }

    /// The table whose oid is `oid`.
    pub fn get_tbl_by_oid(&self, oid: TableId) -> (res: Result<&TableInfo, CatalogError>)
        requires
            self.wf(),
        ensures
            oid < self.tables@.len() ==> (res matches Ok(t) && *t == self.tables@[oid as int]),
            oid >= self.tables@.len() ==> res == Err::<&TableInfo, CatalogError>(CatalogError::TableNotFound(TableIdentifier::Oid(oid))),
    {
        if (oid as usize) < self.tables.len() {
            Ok(&self.tables[oid as usize])
        } else {
            Err(CatalogError::TableNotFound(TableIdentifier::Oid(oid)))
        }
    }

    /// The index whose oid is `oid`.
    pub fn get_idx_by_oid(&self, oid: IndexId) -> (res: Result<&IndexInfo, CatalogError>)
        requires
            self.wf(),
        ensures
            oid < self.indexes@.len() ==> (res matches Ok(t) && *t == self.indexes@[oid as int]),
            oid >= self.indexes@.len() ==> res == Err::<&IndexInfo, CatalogError>(CatalogError::IndexNotFound(IndexIdentifier::Oid(oid))),
    {
        if (oid as usize) < self.indexes.len() {
            Ok(&self.indexes[oid as usize])
        } else {
            Err(CatalogError::IndexNotFound(IndexIdentifier::Oid(oid)))
        }
    }

    /// The indexes of the table named `table_name`, in oid order.
    pub fn get_table_indexes(&self, table_name: &str) -> (res: Result<Vec<&IndexInfo>, CatalogError>)
        requires
            self.wf(),
        ensures
            self.table_named(table_name@) is None ==> (res matches Err(CatalogError::TableNotFound(TableIdentifier::Name(n))) && n@ == table_name@),
            self.table_named(table_name@) is Some ==> (res matches Ok(v) && v@.len() == self.indexes_of(table_name@).len()
                && forall|k: int| 0 <= k < v@.len() ==> *#[trigger] v@[k] == self.indexes@[self.indexes_of(table_name@)[k]]),
            self.table_named(table_name@) is Some ==> forall|k: int| 0 <= k < self.indexes_of(table_name@).len() ==> {
                &&& 0 <= #[trigger] self.indexes_of(table_name@)[k] < self.indexes@.len()
                &&& self.indexes@[self.indexes_of(table_name@)[k]].index.metadata.table_name@ == table_name@
            },
    {
        if self.find_table(table_name).is_none() {
            return Err(CatalogError::TableNotFound(TableIdentifier::Name(table_name.to_owned())));
        }
        let mut res: Vec<&IndexInfo> = Vec::new();
        let mut i: usize = 0;
        let ghost all = Seq::new(self.indexes@.len(), |i: int| i);
        let ghost pred = |i: int| self.indexes@[i].index.metadata.table_name@ == table_name@;
        while i < self.indexes.len()
            invariant
                i <= self.indexes@.len(),
                all == Seq::new(self.indexes@.len(), |i: int| i),
                pred == (|i: int| self.indexes@[i].index.metadata.table_name@ == table_name@),
                res@.len() == all.subrange(0, i as int).filter(pred).len(),
                forall|k: int| 0 <= k < res@.len() ==> *#[trigger] res@[k] == self.indexes@[all.subrange(0, i as int).filter(pred)[k]],
            decreases self.indexes@.len() - i,
        {
            proof {
                reveal_with_fuel(Seq::filter, 1);
                assert(all.subrange(0, i + 1).drop_last() =~= all.subrange(0, i as int));
            }
            if str_eq(self.indexes[i].index.metadata.table_name.as_str(), table_name) {
                res.push(&self.indexes[i]);
            }
            i = i + 1;
        }
        assert(all.subrange(0, self.indexes@.len() as int) =~= all);
        assert forall|k: int| 0 <= k < all.filter(pred).len() implies
            0 <= #[trigger] all.filter(pred)[k] < self.indexes@.len() && pred(all.filter(pred)[k]) by {
            all.lemma_filter_pred(pred, k);
            assert(all.filter(pred).contains(all.filter(pred)[k]));
            all.lemma_filter_contains_rev(pred, all.filter(pred)[k]);
            let x = all.filter(pred)[k];
            let j = choose|j: int| 0 <= j < all.len() && all[j] == x;
            assert(all[j] == j);
        }
        Ok(res)
    }

    /// Whether the table named `table_name` has an index named `index_name`.
    pub open spec fn has_index(&self, table_name: Seq<char>, index_name: Seq<char>) -> bool {
        exists|i: int| 0 <= i < self.indexes@.len()
            && (#[trigger] self.indexes@[i]).index.metadata.table_name@ == table_name
            && self.indexes@[i].index.metadata.name@ == index_name
    }

    fn find_index(&self, table_name: &str, index_name: &str) -> (res: bool)
        ensures
            res == self.has_index(table_name@, index_name@),
    {
        let mut i: usize = 0;
        while i < self.indexes.len()
            invariant
                i <= self.indexes@.len(),
                forall|j: int| 0 <= j < i ==> !((#[trigger] self.indexes@[j]).index.metadata.table_name@ == table_name@
                    && self.indexes@[j].index.metadata.name@ == index_name@),
            decreases self.indexes@.len() - i,
        {
            if str_eq(self.indexes[i].index.metadata.table_name.as_str(), table_name)
                && str_eq(self.indexes[i].index.metadata.name.as_str(), index_name) {
                return true;
            }
            i = i + 1;
        }
        false
    }

    /// Creates an index named `index_name` on the columns `key_attrs` of the
    /// table `table_name`, holding one entry per live tuple of the table.
    pub fn create_index(
        &mut self,
        index_name: String,
        table_name: String,
        key_schema: Schema,
        key_attrs: Vec<usize>,
        key_size: usize,
        is_pk: bool,
    ) -> (res: Result<&IndexInfo, CatalogError>)
        requires
            old(self).wf(),
            old(self).indexes@.len() < u32::MAX,
            old(self).table_named(table_name@) matches Some(t) ==> forall|k: int| 0 <= k < key_attrs@.len()
                ==> #[trigger] key_attrs@[k] < old(self).tables@[t].schema.columns@.len(),
        ensures
            final(self).wf(),
            final(self).tables@ == old(self).tables@,
            old(self).table_named(table_name@) is None ==> {
                &&& *final(self) == *old(self)
                &&& (res matches Err(CatalogError::TableNotFound(TableIdentifier::Name(n))) && n@ == table_name@)
            },
            old(self).table_named(table_name@) is Some && old(self).has_index(table_name@, index_name@) ==> {
                &&& *final(self) == *old(self)
                &&& (res matches Err(CatalogError::DuplicateIndex(n)) && n == index_name)
            },
            old(self).table_named(table_name@) matches Some(t) ==> !old(self).has_index(table_name@, index_name@) ==> {
                let last = final(self).indexes@.last();
                &&& final(self).indexes@.len() == old(self).indexes@.len() + 1
                &&& final(self).indexes@.drop_last() == old(self).indexes@
                &&& last.index_oid == old(self).indexes@.len()
                &&& last.key_size == key_size
                &&& last.index.metadata == (IndexMetadata { name: index_name, table_name, key_schema, key_attrs, is_pk })
                &&& entries_view(last.index.entries@) == built_entries(
                    old(self).tables@[t].table_heap.tuples@, key_attrs@, old(self).tables@[t].table_heap.len() as int)
                &&& (res matches Ok(ix) && *ix == last)
            },
    {
        let t = match self.find_table(table_name.as_str()) {
            Some(t) => t,
            None => return Err(CatalogError::TableNotFound(TableIdentifier::Name(table_name))),
        };
        if self.find_index(table_name.as_str(), index_name.as_str()) {
            return Err(CatalogError::DuplicateIndex(index_name));
        }
        let mut entries: Vec<(Vec<Value>, Rid)> = Vec::new();
        let heap = &self.tables[t].table_heap;
        let ghost tuples = heap.tuples@;
        let mut rid: usize = 0;
        while rid < heap.tuples.len()
            invariant
                heap.tuples@ == tuples,
                self.wf(),
                t < self.tables@.len(),
                *heap == self.tables@[t as int].table_heap,
                forall|k: int| 0 <= k < key_attrs@.len() ==> #[trigger] key_attrs@[k] < self.tables@[t as int].schema.columns@.len(),
                rid <= tuples.len(),
                entries_view(entries@) == built_entries(tuples, key_attrs@, rid as int),
            decreases tuples.len() - rid,
        {
            let (meta, tuple) = &heap.tuples[rid];
            proof {
                let ti = self.tables@[t as int];
                assert(ti.table_heap.values(rid as int).len() == ti.schema.columns@.len());
            }
            if !meta.is_deleted() {
                let key = tuple.key_from_tuple(&self.tables[t].schema, &key_schema, key_attrs.as_slice());
                entries.push((key.values, rid));
            }
            proof {
                assert(entries_view(entries@) =~= built_entries(tuples, key_attrs@, rid + 1));
            }
            rid = rid + 1;
        }
        let index_oid = self.indexes.len() as u32;
        let metadata = IndexMetadata { name: index_name, table_name, key_schema, key_attrs, is_pk };
        let info = IndexInfo::new(key_size, index_oid, Index { metadata, entries });
        self.indexes.push(info);
        proof {
            let n = self.indexes@.len() - 1;
            assert(self.indexes@.drop_last() =~= old(self).indexes@);
            assert forall|i: int| 0 <= i < self.indexes@.len() implies exists|tt: int| 0 <= tt < self.tables@.len()
                && (#[trigger] self.tables@[tt]).name@ == (#[trigger] self.indexes@[i]).index.metadata.table_name@
                && forall|k: int| 0 <= k < self.indexes@[i].index.metadata.key_attrs@.len()
                    ==> #[trigger] self.indexes@[i].index.metadata.key_attrs@[k] < self.tables@[tt].schema.columns@.len() by {
                if i == n {
                    assert(self.tables@[t as int].name@ == self.indexes@[i].index.metadata.table_name@);
                    let tn = old(self).table_named(self.indexes@[i].index.metadata.table_name@);
                    let w = tn->0;
                    if w != t as int {
                        if w < t as int {
                            assert(old(self).tables@[w].name@ != old(self).tables@[t as int].name@);
                        } else {
                            assert(old(self).tables@[t as int].name@ != old(self).tables@[w].name@);
                        }
                    }
                    assert(forall|k: int| 0 <= k < self.indexes@[i].index.metadata.key_attrs@.len()
                        ==> #[trigger] self.indexes@[i].index.metadata.key_attrs@[k] < self.tables@[t as int].schema.columns@.len());
                } else {
                    assert(self.indexes@[i] == old(self).indexes@[i]);
                    let tt = choose|tt: int| 0 <= tt < old(self).tables@.len()
                        && (#[trigger] old(self).tables@[tt]).name@ == (#[trigger] old(self).indexes@[i]).index.metadata.table_name@
                        && forall|k: int| 0 <= k < old(self).indexes@[i].index.metadata.key_attrs@.len()
                            ==> #[trigger] old(self).indexes@[i].index.metadata.key_attrs@[k] < old(self).tables@[tt].schema.columns@.len();
                    assert(self.tables@[tt] == old(self).tables@[tt]);
                }
            }
            assert forall|i: int, j: int| 0 <= i < j < self.indexes@.len()
                && (#[trigger] self.indexes@[i]).index.metadata.table_name@ == (#[trigger] self.indexes@[j]).index.metadata.table_name@
                implies self.indexes@[i].index.metadata.name@ != self.indexes@[j].index.metadata.name@ by {
                if j == n {
                    assert(self.indexes@[i] == old(self).indexes@[i]);
                }
            }
        }
        Ok(&self.indexes[self.indexes.len() - 1])
    }

    /// Appends a tuple to the table `oid`.
    pub fn insert_tuple(&mut self, oid: TableId, meta: &TupleMeta, tuple: &Tuple) -> (res: Result<Rid, CatalogError>)
        requires
            old(self).wf(),
            oid < old(self).tables@.len() ==> tuple.values@.len() == old(self).tables@[oid as int].schema.columns@.len(),
        ensures
            final(self).wf(),
            final(self).indexes@ == old(self).indexes@,
            final(self).tables@.len() == old(self).tables@.len(),
            oid >= old(self).tables@.len() ==> *final(self) == *old(self)
                && res == Err::<Rid, CatalogError>(CatalogError::TableNotFound(TableIdentifier::Oid(oid))),
            oid < old(self).tables@.len() ==> {
                let before = old(self).tables@[oid as int];
                let after = final(self).tables@[oid as int];
                &&& res == Ok::<Rid, CatalogError>(before.table_heap.len() as usize)
                &&& after.schema == before.schema && after.name == before.name && after.table_oid == before.table_oid
                &&& after.table_heap.len() == before.table_heap.len() + 1
                &&& after.table_heap.meta(before.table_heap.len() as int) == *meta
                &&& after.table_heap.values(before.table_heap.len() as int) == tuple.values@
                &&& forall|r: int| 0 <= r < before.table_heap.len() ==> #[trigger] after.table_heap.tuples@[r] == before.table_heap.tuples@[r]
            },
            forall|i: int| 0 <= i < old(self).tables@.len() && i != oid ==> #[trigger] final(self).tables@[i] == old(self).tables@[i],
    {
        if (oid as usize) >= self.tables.len() {
            return Err(CatalogError::TableNotFound(TableIdentifier::Oid(oid)));
        }
        let i = oid as usize;
        let ghost pre = *self;
        let rid = self.tables[i].table_heap.insert_tuple(meta, tuple);
        proof {
            let tp = pre.tables@[i as int];
            let tn = self.tables@[i as int];
            assert forall|r: int| 0 <= r < tn.table_heap.len() implies
                (#[trigger] tn.table_heap.values(r)).len() == tn.schema.columns@.len() by {
                if r < tp.table_heap.len() {
                    assert(tn.table_heap.tuples@[r] == tp.table_heap.tuples@[r]);
                    assert(tp.table_heap.values(r).len() == tp.schema.columns@.len());
                }
            }
            self.lemma_wf_after_table_change(pre, i as int);
        }
        Ok(rid)
    }

    /// Replaces the metadata of the tuple `rid` of the table `oid`.
    pub fn update_tuple_meta(&mut self, oid: TableId, rid: Rid, meta: TupleMeta) -> (res: Result<(), CatalogError>)
        requires
            old(self).wf(),
        ensures
            final(self).wf(),
            final(self).indexes@ == old(self).indexes@,
            final(self).tables@.len() == old(self).tables@.len(),
            oid >= old(self).tables@.len() ==> *final(self) == *old(self)
                && res == Err::<(), CatalogError>(CatalogError::TableNotFound(TableIdentifier::Oid(oid))),
            oid < old(self).tables@.len() ==> {
                let before = old(self).tables@[oid as int];
                let after = final(self).tables@[oid as int];
                &&& after.schema == before.schema && after.name == before.name && after.table_oid == before.table_oid
                &&& after.table_heap.len() == before.table_heap.len()
                &&& (rid < before.table_heap.len() ==> res is Ok && after.table_heap.meta(rid as int) == meta
                    && after.table_heap.values(rid as int) == before.table_heap.values(rid as int))
                &&& (rid >= before.table_heap.len() ==> res == Err::<(), CatalogError>(CatalogError::TableHeap(TableHeapError::InvalidRid(rid)))
                    && after == before)
                &&& forall|r: int| 0 <= r < before.table_heap.len() && r != rid ==> #[trigger] after.table_heap.tuples@[r] == before.table_heap.tuples@[r]
            },
            forall|i: int| 0 <= i < old(self).tables@.len() && i != oid ==> #[trigger] final(self).tables@[i] == old(self).tables@[i],
    {
        if (oid as usize) >= self.tables.len() {
            return Err(CatalogError::TableNotFound(TableIdentifier::Oid(oid)));
        }
        let i = oid as usize;
        let ghost pre = *self;
        let r = self.tables[i].table_heap.update_meta(rid, meta);
        proof {
            let tp = pre.tables@[i as int];
            let tn = self.tables@[i as int];
            assert forall|r: int| 0 <= r < tn.table_heap.len() implies
                (#[trigger] tn.table_heap.values(r)).len() == tn.schema.columns@.len() by {
                assert(tp.table_heap.values(r).len() == tp.schema.columns@.len());
                if r != rid {
                    assert(tn.table_heap.tuples@[r] == tp.table_heap.tuples@[r]);
                }
            }
            self.lemma_wf_after_table_change(pre, i as int);
        }
        match r {
            Ok(()) => Ok(()),
            Err(e) => Err(CatalogError::TableHeap(e)),
        }
    }

    proof fn lemma_wf_after_table_change(&self, pre: Catalog, t: int)
        requires
            pre.wf(),
            0 <= t < pre.tables@.len(),
            self.tables@.len() == pre.tables@.len(),
            self.indexes@ == pre.indexes@,
            forall|i: int| 0 <= i < pre.tables@.len() && i != t ==> #[trigger] self.tables@[i] == pre.tables@[i],
            self.tables@[t].schema == pre.tables@[t].schema,
            self.tables@[t].name == pre.tables@[t].name,
            self.tables@[t].table_oid == pre.tables@[t].table_oid,
            forall|r: int| 0 <= r < self.tables@[t].table_heap.len() ==>
                (#[trigger] self.tables@[t].table_heap.values(r)).len() == self.tables@[t].schema.columns@.len(),
        ensures
            self.wf(),
    {
        assert forall|i: int| 0 <= i < self.indexes@.len() implies exists|tt: int| 0 <= tt < self.tables@.len()
            && (#[trigger] self.tables@[tt]).name@ == (#[trigger] self.indexes@[i]).index.metadata.table_name@ by {
            let tt = choose|tt: int| 0 <= tt < pre.tables@.len()
                && (#[trigger] pre.tables@[tt]).name@ == pre.indexes@[i].index.metadata.table_name@;
            assert(self.tables@[tt].name == pre.tables@[tt].name);
        }
        assert forall|i: int, j: int| 0 <= i < j < self.tables@.len() implies (#[trigger] self.tables@[i]).name@ != (#[trigger] self.tables@[j]).name@ by {
            assert(pre.tables@[i].name@ != pre.tables@[j].name@);
        }
    }

    /// Adds an entry to the index `oid`.
    pub fn index_insert_entry(&mut self, oid: IndexId, key: &Tuple, rid: Rid) -> (res: Result<(), CatalogError>)
        requires
            old(self).wf(),
            oid < old(self).indexes@.len(),
        ensures
            final(self).wf(),
            res is Ok,
            final(self).tables@ == old(self).tables@,
            final(self).indexes@.len() == old(self).indexes@.len(),
            forall|i: int| 0 <= i < old(self).indexes@.len() && i != oid ==> #[trigger] final(self).indexes@[i] == old(self).indexes@[i],
            final(self).indexes@[oid as int].index.metadata == old(self).indexes@[oid as int].index.metadata,
            final(self).indexes@[oid as int].index_oid == old(self).indexes@[oid as int].index_oid,
            final(self).indexes@[oid as int].key_size == old(self).indexes@[oid as int].key_size,
            entries_view(final(self).indexes@[oid as int].index.entries@)
                == entries_view(old(self).indexes@[oid as int].index.entries@).push((key.values@, rid)),
    {
        let i = oid as usize;
        let ghost pre = *self;
        let _ = self.indexes[i].index.insert_entry(key, rid);
        proof {
            self.lemma_wf_after_index_change(pre, i as int);
            assert(entries_view(self.indexes@[i as int].index.entries@) =~= entries_view(pre.indexes@[i as int].index.entries@).push((key.values@, rid)));
        }
        Ok(())
    }

    /// Removes the first entry `(key, rid)` of the index `oid`, if any.
    pub fn index_delete_entry(&mut self, oid: IndexId, key: &Tuple, rid: Rid) -> (res: Result<(), CatalogError>)
        requires
            old(self).wf(),
            oid < old(self).indexes@.len(),
        ensures
            final(self).wf(),
            res is Ok,
            final(self).tables@ == old(self).tables@,
            final(self).indexes@.len() == old(self).indexes@.len(),
            forall|i: int| 0 <= i < old(self).indexes@.len() && i != oid ==> #[trigger] final(self).indexes@[i] == old(self).indexes@[i],
            final(self).indexes@[oid as int].index.metadata == old(self).indexes@[oid as int].index.metadata,
            final(self).indexes@[oid as int].index_oid == old(self).indexes@[oid as int].index_oid,
            final(self).indexes@[oid as int].key_size == old(self).indexes@[oid as int].key_size,
            (forall|k: int| 0 <= k < old(self).indexes@[oid as int].index.entries@.len() ==>
                !(crate::types::value::same_values(#[trigger] old(self).indexes@[oid as int].index.entries@[k].0@, key.values@)
                    && old(self).indexes@[oid as int].index.entries@[k].1 == rid))
                ==> final(self).indexes@[oid as int].index.entries@ == old(self).indexes@[oid as int].index.entries@,
            (exists|k: int| 0 <= k < old(self).indexes@[oid as int].index.entries@.len()
                && crate::types::value::same_values(#[trigger] old(self).indexes@[oid as int].index.entries@[k].0@, key.values@)
                && old(self).indexes@[oid as int].index.entries@[k].1 == rid)
                ==> exists|p: int| {
                    &&& 0 <= p < old(self).indexes@[oid as int].index.entries@.len()
                    &&& crate::types::value::same_values(#[trigger] old(self).indexes@[oid as int].index.entries@[p].0@, key.values@)
                    &&& old(self).indexes@[oid as int].index.entries@[p].1 == rid
                    &&& forall|k: int| 0 <= k < p ==> !(crate::types::value::same_values(
                        #[trigger] old(self).indexes@[oid as int].index.entries@[k].0@, key.values@)
                        && old(self).indexes@[oid as int].index.entries@[k].1 == rid)
                    &&& final(self).indexes@[oid as int].index.entries@ == old(self).indexes@[oid as int].index.entries@.remove(p)
                },
    {
        let i = oid as usize;
        let ghost pre = *self;
        let _ = self.indexes[i].index.delete_entry(key, rid);
        proof { self.lemma_wf_after_index_change(pre, i as int); }
        Ok(())
    }

    proof fn lemma_wf_after_index_change(&self, pre: Catalog, x: int)
        requires
            pre.wf(),
            0 <= x < pre.indexes@.len(),
            self.tables@ == pre.tables@,
            self.indexes@.len() == pre.indexes@.len(),
            forall|i: int| 0 <= i < pre.indexes@.len() && i != x ==> #[trigger] self.indexes@[i] == pre.indexes@[i],
            self.indexes@[x].index.metadata == pre.indexes@[x].index.metadata,
            self.indexes@[x].index_oid == pre.indexes@[x].index_oid,
        ensures
            self.wf(),
    {
        assert forall|i: int| 0 <= i < self.indexes@.len() implies exists|tt: int| 0 <= tt < self.tables@.len()
            && (#[trigger] self.tables@[tt]).name@ == (#[trigger] self.indexes@[i]).index.metadata.table_name@ by {
            let tt = choose|tt: int| 0 <= tt < pre.tables@.len()
                && (#[trigger] pre.tables@[tt]).name@ == pre.indexes@[i].index.metadata.table_name@;
            assert(self.tables@[tt] == pre.tables@[tt]);
        }
        assert forall|i: int, j: int| 0 <= i < j < self.indexes@.len()
            && (#[trigger] self.indexes@[i]).index.metadata.table_name@ == (#[trigger] self.indexes@[j]).index.metadata.table_name@
            implies self.indexes@[i].index.metadata.name@ != self.indexes@[j].index.metadata.name@ by {
            assert(pre.indexes@[i].index.metadata == self.indexes@[i].index.metadata);
            assert(pre.indexes@[j].index.metadata == self.indexes@[j].index.metadata);
        }
    }

    /// The names of the tables, in oid order.
    pub fn table_names(&self) -> (res: Vec<String>)
        ensures
            res@.len() == self.tables@.len(),
            forall|i: int| 0 <= i < res@.len() ==> #[trigger] res@[i] == self.tables@[i].name,
    {
        let mut res: Vec<String> = Vec::new();
        let mut i: usize = 0;
        while i < self.tables.len()
            invariant
                i <= self.tables@.len(),
                res@.len() == i,
                forall|j: int| 0 <= j < i ==> #[trigger] res@[j] == self.tables@[j].name,
            decreases self.tables@.len() - i,
        {
            res.push(self.tables[i].name.clone());
            i = i + 1;
        }
        res
    }
}

} // verus!
