use vstd::prelude::*;
use crate::catalog::catalog::Catalog;
use crate::query::binder::statements::statement_valid;
use crate::query::engine::{DEFAULT_BATCH_SIZE, run_statement, QueryEngineError, QueryResult, statement_accepted, statement_outcome};
use crate::query::statement::Statement;
use crate::query::accepted::{join_free, within_limits};

verus! {

/// The application-level database: one catalog, changed by one statement
/// at a time.
pub struct Database {
    pub catalog: Catalog,
}

#[derive(Debug)]
pub enum DatabaseError {
    Query(QueryEngineError),
}

/// The result of the query engine that a database result stands for.
pub open spec fn engine_result(res: Result<QueryResult, DatabaseError>) -> Result<QueryResult, QueryEngineError> {
    match res {
        Ok(r) => Ok(r),
        Err(DatabaseError::Query(e)) => Err(e),
    }
}

impl Database {
    /// A database with no tables.
    pub fn new() -> (res: Self)
        ensures
            res.catalog.wf(),
            res.catalog.tables@.len() == 0,
            res.catalog.indexes@.len() == 0,
    {
        Database { catalog: Catalog::new() }
    }

    /// Runs a parsed statement against the catalog.
    pub fn execute_sql(&mut self, statement: Statement) -> (res: Result<QueryResult, DatabaseError>)
        requires
            old(self).catalog.wf(),
            statement_valid(statement),
            join_free(statement),
            within_limits(old(self).catalog, statement),
        ensures
            final(self).catalog.wf(),
            statement_outcome(old(self).catalog, final(self).catalog, statement, engine_result(res)),
    {
        match run_statement(&mut self.catalog, statement, DEFAULT_BATCH_SIZE) {
            Ok(r) => Ok(r),
            Err(e) => Err(DatabaseError::Query(e)),
        }
    }

    /// The names of the tables, in the order they were created.
    pub fn table_names(&self) -> (res: Result<Vec<String>, DatabaseError>)
        ensures
            res matches Ok(names) && names@.len() == self.catalog.tables@.len()
                && forall|i: int| 0 <= i < names@.len() ==> #[trigger] names@[i] == self.catalog.tables@[i].name,
    {
        Ok(self.catalog.table_names())
    }
}

} // verus!
