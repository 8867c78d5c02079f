use vstd::prelude::*;
use crate::catalog::schema::Schema;
use crate::types::value::{Value, clone_values};

verus! {

/// Identifies a tuple in its table heap: its position.
pub type Rid = usize;

/// What the heap records of a tuple beside its values.
#[derive(Debug, Clone, Copy, PartialEq, Eq)]
pub struct TupleMeta {
    pub ts: u64,
    pub is_deleted: bool,
}

impl TupleMeta {
    pub fn new(ts: u64, is_deleted: bool) -> (res: Self)
        ensures
            res == (TupleMeta { ts, is_deleted }),
    {
        TupleMeta { ts, is_deleted }
    }

    pub fn is_deleted(&self) -> (res: bool)
        ensures
            res == self.is_deleted,
    {
        self.is_deleted
    }

    /// The same metadata, marked deleted.
    pub fn delete(self) -> (res: Self)
        ensures
            res == (TupleMeta { is_deleted: true, ..self }),
    {
        TupleMeta { ts: self.ts, is_deleted: true }
    }
}

/// A row of values, as stored in a table heap or used as an index key.
#[derive(Debug, PartialEq)]
pub struct Tuple {
    pub values: Vec<Value>,
}

impl Clone for Tuple {
    fn clone(&self) -> (res: Self)
        ensures
            res.values@ == self.values@,
    {
        Tuple { values: clone_values(self.values.as_slice()) }
    }
}

impl Tuple {
    /// The tuple holding `values` in the layout of `schema`.
    pub fn from_values(values: &[Value], schema: &Schema) -> (res: Self)
        ensures
            res.values@ == values@,
    {
        Tuple { values: clone_values(values) }
    }

    /// The values of the tuple, read with `schema`.
    pub fn get_values(&self, schema: &Schema) -> (res: Vec<Value>)
        ensures
            res@ == self.values@,
    {
        clone_values(self.values.as_slice())
    }

    /// The key that an index over the columns `key_attrs` holds for this
    /// tuple: the values at those positions.
    pub fn key_from_tuple(&self, schema: &Schema, key_schema: &Schema, key_attrs: &[usize]) -> (res: Tuple)
        requires
            forall|i: int| 0 <= i < key_attrs@.len() ==> #[trigger] key_attrs@[i] < self.values@.len(),
        ensures
            res.values@ == key_of(self.values@, key_attrs@),
    {
        let mut values: Vec<Value> = Vec::new();
        let mut i: usize = 0;
        while i < key_attrs.len()
            invariant
                i <= key_attrs@.len(),
                forall|j: int| 0 <= j < key_attrs@.len() ==> #[trigger] key_attrs@[j] < self.values@.len(),
                values@ == key_of(self.values@, key_attrs@).subrange(0, i as int),
            decreases key_attrs@.len() - i,
        {
            values.push(self.values[key_attrs[i]].clone());
            i = i + 1;
            assert(values@ =~= key_of(self.values@, key_attrs@).subrange(0, i as int));
        }
        assert(values@ =~= key_of(self.values@, key_attrs@));
        Tuple { values }
    }

    /// Whether no value of the key is NULL.
    pub fn all_values_not_null(&self, key_schema: &Schema) -> (res: bool)
        ensures
            res == forall|i: int| 0 <= i < self.values@.len() ==> !(#[trigger] self.values@[i] is Null),
    {
        let mut i: usize = 0;
        while i < self.values.len()
            invariant
                i <= self.values@.len(),
                forall|j: int| 0 <= j < i ==> !(#[trigger] self.values@[j] is Null),
            decreases self.values@.len() - i,
        {
            if self.values[i].is_null() {
                return false;
            }
            i = i + 1;
        }
        true
    }
}

/// The values at positions `attrs` of `values`.
pub open spec fn key_of(values: Seq<Value>, attrs: Seq<usize>) -> Seq<Value> {
    attrs.map_values(|a: usize| values[a as int])
}

} // verus!
