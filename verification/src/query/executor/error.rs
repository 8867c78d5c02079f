use vstd::prelude::*;
use crate::catalog::error::CatalogError;
use crate::storage::error::{IndexError, TableHeapError};
use crate::types::value::Value;

verus! {

#[derive(Debug, PartialEq)]
pub enum ExecutionError {
    Catalog(CatalogError),
    TableHeap(TableHeapError),
    Index(IndexError),
    ExpectedBoolean(Value),
    ExpectedNumeric(Value),
    ExpectedInteger(Value),
    ComparisonTypeMismatch(Value, Value),
    NumericOutOfRange,
    NegativeLimit,
    MissingRid,
    UnsupportedExpression,
    UnsupportedPlan,
    Uninitialised,
}

} // verus!
