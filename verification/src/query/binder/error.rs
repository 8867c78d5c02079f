use vstd::prelude::*;
use crate::catalog::error::CatalogError;

verus! {

#[derive(Debug, PartialEq)]
pub enum BinderError {
    DuplicateColumn(String),
    PrimaryKeyColumnNotFound(String),
    DuplicatePrimaryKeyColumn(String),
    CreateTableWithoutColumns,
    TableNotFound(String),
    InvalidTableName(String),
    Catalog(CatalogError),
    InsertValuesEmpty,
    InsertValuesDoesntMatchColumns,
    UnsupportedExpression(String),
    AmbiguousColumn(String),
    DuplicateInsertColumns,
    ColumnNotFound(String),
    MissingFromClauseEntry(String),
    EmptySelectProjection,
    DuplicateIndexColumn(String),
}

} // verus!
