use vstd::prelude::*;
use crate::storage::error::TableHeapError;
use crate::storage::tuple::{Rid, Tuple, TupleMeta};
use crate::types::value::Value;

verus! {

/// The tuples of a table, each with its metadata, in insertion order; a
/// tuple's `Rid` is its position.
#[derive(Debug)]
pub struct TableHeap {
    pub tuples: Vec<(TupleMeta, Tuple)>,
}

impl TableHeap {
    pub open spec fn meta(&self, rid: int) -> TupleMeta {
        self.tuples@[rid].0
    }

    pub open spec fn values(&self, rid: int) -> Seq<Value> {
        self.tuples@[rid].1.values@
    }

    pub open spec fn len(&self) -> nat {
        self.tuples@.len()
    }

    pub fn new() -> (res: Self)
        ensures
            res.len() == 0,
    {
        TableHeap { tuples: Vec::new() }
    }

    pub fn num_tuples(&self) -> (res: usize)
        ensures
            res == self.len(),
    {
        self.tuples.len()
    }

    /// Appends a tuple and returns its record id.
    pub fn insert_tuple(&mut self, meta: &TupleMeta, tuple: &Tuple) -> (res: Rid)
        ensures
            res == old(self).len(),
            final(self).len() == old(self).len() + 1,
            final(self).meta(res as int) == *meta,
            final(self).values(res as int) == tuple.values@,
            forall|i: int| 0 <= i < old(self).len() ==> #[trigger] final(self).tuples@[i] == old(self).tuples@[i],
    {
        let rid = self.tuples.len();
        self.tuples.push((*meta, tuple.clone()));
        rid
    }

    /// The metadata and values of the tuple `rid`.
    pub fn get_tuple(&self, rid: Rid) -> (res: Result<(TupleMeta, Tuple), TableHeapError>)
        ensures
            rid < self.len() ==> (res matches Ok((m, t)) && m == self.meta(rid as int) && t.values@ == self.values(rid as int)),
            rid >= self.len() ==> res == Err::<(TupleMeta, Tuple), TableHeapError>(TableHeapError::InvalidRid(rid)),
    {
        if rid < self.tuples.len() {
            let (meta, tuple) = &self.tuples[rid];
            Ok((*meta, tuple.clone()))
        } else {
            Err(TableHeapError::InvalidRid(rid))
        }
    }

    /// Replaces the metadata of the tuple `rid`.
    pub fn update_meta(&mut self, rid: Rid, meta: TupleMeta) -> (res: Result<(), TableHeapError>)
        ensures
            rid < old(self).len() <==> res is Ok,
            res is Err ==> res == Err::<(), TableHeapError>(TableHeapError::InvalidRid(rid)) && *final(self) == *old(self),
            final(self).len() == old(self).len(),
            rid < old(self).len() ==> final(self).meta(rid as int) == meta && final(self).values(rid as int) == old(self).values(rid as int),
            forall|i: int| 0 <= i < old(self).len() && i != rid ==> #[trigger] final(self).tuples@[i] == old(self).tuples@[i],
    {
        if rid < self.tuples.len() {
            let mut entry = (meta, Tuple { values: Vec::new() });
            std::mem::swap(&mut entry, &mut self.tuples[rid]);
            let (_, tuple) = entry;
            self.tuples.set(rid, (meta, tuple));
            Ok(())
        } else {
            Err(TableHeapError::InvalidRid(rid))
        }
    }
}

} // verus!
