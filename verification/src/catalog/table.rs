use vstd::prelude::*;
use crate::catalog::error::TableId;
use crate::catalog::schema::Schema;
use crate::storage::table_heap::TableHeap;

verus! {

/// A table: its schema, name, tuples and object id.
#[derive(Debug)]
pub struct TableInfo {
    pub schema: Schema,
    pub name: String,
    pub table_heap: TableHeap,
    pub table_oid: TableId,
}

impl TableInfo {
    pub fn new(schema: Schema, name: String, table_heap: TableHeap, table_oid: TableId) -> (res: Self)
        ensures
            res == (TableInfo { schema, name, table_heap, table_oid }),
    {
        TableInfo { schema, name, table_heap, table_oid }
    }

    pub fn name(&self) -> (res: &str)
        ensures
            res@ == self.name@,
    {
        self.name.as_str()
    }

    pub fn table_oid(&self) -> (res: TableId)
        ensures
            res == self.table_oid,
    {
        self.table_oid
    }

    /// A copy of the table's schema.
    pub fn schema(&self) -> (res: Schema)
        ensures
            res@ == self.schema@,
    {
        self.schema.clone()
    }
}

} // verus!
