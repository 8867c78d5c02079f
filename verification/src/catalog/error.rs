use vstd::prelude::*;
use crate::storage::error::{IndexError, TableHeapError};

verus! {

pub type TableId = u32;

pub type IndexId = u32;

#[derive(Debug, PartialEq)]
pub enum TableIdentifier {
    Name(String),
    Oid(TableId),
}

#[derive(Debug, PartialEq)]
pub enum IndexIdentifier {
    Name(String),
    Oid(IndexId),
}

#[derive(Debug, PartialEq)]
pub enum CatalogError {
    DuplicateTable(String),
    DuplicateIndex(String),
    TableHeap(TableHeapError),
    TableNotFound(TableIdentifier),
    UnsupportedIndexType,
    Index(IndexError),
    IndexNotFound(IndexIdentifier),
}

} // verus!
