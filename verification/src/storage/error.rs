use vstd::prelude::*;

verus! {

/// Errors of the table heap.
#[derive(Debug, PartialEq)]
pub enum TableHeapError {
    /// No tuple is stored under this record id.
    InvalidRid(usize),
}

/// Errors of an index.
#[derive(Debug, PartialEq)]
pub enum IndexError {
    /// The key does not have the index's number of columns.
    KeyArityMismatch,
}

} // verus!
