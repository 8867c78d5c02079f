use vstd::prelude::*;
use crate::catalog::error::CatalogError;

verus! {

/// Why a bound statement could not be planned.
#[derive(Debug, PartialEq)]
pub enum PlannerError {
    UnsupportedStatement,
    Catalog(CatalogError),
    /// more than one column has this name
    AmbiguousColumn(String),
    InsertSchemaMismatch,
    UpdateSchemaMismatch,
    NestedAggregate,
    UnexpectedAggregateReference,
}

} // verus!
