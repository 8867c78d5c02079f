use vstd::prelude::*;
use crate::catalog::schema::Schema;
use crate::storage::error::IndexError;
use crate::storage::tuple::{Rid, Tuple};
use crate::types::value::{Value, clone_values, same_values, value_eq};

verus! {

/// What an index is built over.
#[derive(Debug)]
pub struct IndexMetadata {
    pub name: String,
    pub table_name: String,
    pub key_schema: Schema,
    pub key_attrs: Vec<usize>,
    pub is_pk: bool,
}

/// An index: the (key, record id) pairs of a table, in insertion order.
#[derive(Debug)]
pub struct Index {
    pub metadata: IndexMetadata,
    pub entries: Vec<(Vec<Value>, Rid)>,
}

/// The record ids whose key is `key`, in entry order.
pub open spec fn matching_rids(entries: Seq<(Vec<Value>, Rid)>, key: Seq<Value>) -> Seq<Rid>
    decreases entries.len(),
{
    if entries.len() == 0 {
        Seq::empty()
    } else {
        let rest = matching_rids(entries.drop_last(), key);
        if same_values(entries.last().0@, key) {
            rest.push(entries.last().1)
        } else {
            rest
        }
    }
}

/// Whether two rows of values hold the same values.
pub fn values_eq(a: &[Value], b: &[Value]) -> (res: bool)
    ensures
        res == same_values(a@, b@),
{
    if a.len() != b.len() {
        return false;
    }
    let mut i: usize = 0;
    while i < a.len()
        invariant
            a@.len() == b@.len(),
            i <= a@.len(),
            forall|j: int| 0 <= j < i ==> crate::types::value::same_value(#[trigger] a@[j], b@[j]),
        decreases a@.len() - i,
    {
        if !value_eq(&a[i], &b[i]) {
            return false;
        }
        i = i + 1;
    }
    true
}

impl Index {
    pub fn metadata(&self) -> (res: &IndexMetadata)
        ensures
            res == &self.metadata,
    {
        &self.metadata
    }

    /// Adds the entry `(key, rid)`.
    pub fn insert_entry(&mut self, key: &Tuple, rid: Rid) -> (res: Result<(), IndexError>)
        ensures
            res is Ok,
            final(self).metadata == old(self).metadata,
            final(self).entries@.len() == old(self).entries@.len() + 1,
            final(self).entries@.last().0@ == key.values@,
            final(self).entries@.last().1 == rid,
            forall|i: int| 0 <= i < old(self).entries@.len() ==> #[trigger] final(self).entries@[i] == old(self).entries@[i],
    {
        self.entries.push((clone_values(key.values.as_slice()), rid));
        Ok(())
    }

    /// Removes the first entry `(key, rid)`, if there is one.
    pub fn delete_entry(&mut self, key: &Tuple, rid: Rid) -> (res: Result<(), IndexError>)
        ensures
            res is Ok,
            final(self).metadata == old(self).metadata,
            (forall|i: int| 0 <= i < old(self).entries@.len() ==>
                !(same_values(#[trigger] old(self).entries@[i].0@, key.values@) && old(self).entries@[i].1 == rid))
                ==> final(self).entries@ == old(self).entries@,
            (exists|i: int| 0 <= i < old(self).entries@.len()
                && same_values(#[trigger] old(self).entries@[i].0@, key.values@) && old(self).entries@[i].1 == rid)
                ==> exists|p: int| {
                    &&& 0 <= p < old(self).entries@.len()
                    &&& same_values(#[trigger] old(self).entries@[p].0@, key.values@)
                    &&& old(self).entries@[p].1 == rid
                    &&& forall|i: int| 0 <= i < p ==> !(same_values(#[trigger] old(self).entries@[i].0@, key.values@) && old(self).entries@[i].1 == rid)
                    &&& final(self).entries@ == old(self).entries@.remove(p)
                },
    {
        let mut i: usize = 0;
        while i < self.entries.len()
            invariant
                self.entries@ == old(self).entries@,
                self.metadata == old(self).metadata,
                i <= self.entries@.len(),
                forall|j: int| 0 <= j < i ==> !(same_values(#[trigger] self.entries@[j].0@, key.values@) && self.entries@[j].1 == rid),
            decreases self.entries@.len() - i,
        {
            if self.entries[i].1 == rid && values_eq(self.entries[i].0.as_slice(), key.values.as_slice()) {
                self.entries.remove(i);
                return Ok(());
            }
            i = i + 1;
        }
        Ok(())
    }

    /// The record ids stored under `key`, in entry order.
    pub fn scan_key(&self, key: &Tuple) -> (res: Result<Vec<Rid>, IndexError>)
        ensures
            res matches Ok(r) && r@ == matching_rids(self.entries@, key.values@),
    {
        let mut res: Vec<Rid> = Vec::new();
        let mut i: usize = 0;
        while i < self.entries.len()
            invariant
                i <= self.entries@.len(),
                res@ == matching_rids(self.entries@.subrange(0, i as int), key.values@),
            decreases self.entries@.len() - i,
        {
            let ghost prefix = self.entries@.subrange(0, i as int);
            if values_eq(self.entries[i].0.as_slice(), key.values.as_slice()) {
                res.push(self.entries[i].1);
            }
            proof {
                let next = self.entries@.subrange(0, i + 1);
                assert(next.drop_last() =~= prefix);
            }
            i = i + 1;
        }
        assert(self.entries@.subrange(0, self.entries@.len() as int) =~= self.entries@);
        Ok(res)
    }
}

} // verus!
