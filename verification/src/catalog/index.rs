use vstd::prelude::*;
use crate::catalog::error::IndexId;
use crate::storage::index::Index;

verus! {

/// An index of the catalog: its key size in bytes, object id and contents.
#[derive(Debug)]
pub struct IndexInfo {
    pub key_size: usize,
    pub index_oid: IndexId,
    pub index: Index,
}

impl IndexInfo {
    pub fn new(key_size: usize, index_oid: IndexId, index: Index) -> (res: Self)
        ensures
            res == (IndexInfo { key_size, index_oid, index }),
    {
        IndexInfo { key_size, index_oid, index }
    }

    pub fn oid(&self) -> (res: IndexId)
        ensures
            res == self.index_oid,
    {
        self.index_oid
    }
}

} // verus!
