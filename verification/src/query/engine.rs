use vstd::prelude::*;
use crate::catalog::catalog::{Catalog, built_entries, entries_view};
use crate::catalog::column::{Column, ColumnSize, column_declared_size};
use crate::catalog::error::{CatalogError, TableIdentifier};
use crate::catalog::schema::{Schema, all_well_formed, columns_fit, laid_out};
use crate::catalog::types::SqlType;
use crate::common::strings::{str_byte_len, trim_newlines, utf8_len};
use crate::query::binder::error::BinderError;
use crate::query::binder::statement::{BoundCreateIndex, BoundCreateTable, BoundExplain, BoundStatement};
use crate::query::binder::statements::{statement_binds, statement_fails, statement_valid};
use crate::query::binder::transformer::Binder;
use crate::query::executor::engine::{ExecutionResult, ExecutorRow, RowView, execute_plan, outcome, plan_ok, result_view, rows_of};
use crate::query::executor::error::ExecutionError;
use crate::query::optimizer::{Optimizer, joins_ok, optimized};
use crate::query::planner::error::PlannerError;
use crate::query::planner::format::{format_plan, plan_text};
use crate::query::planner::plan::PlanNode;
use crate::query::planner::transformer::{Planner, plannable, reports, statement_plan_failure, statement_planned};
use crate::query::statement::Statement;
use crate::storage::index::IndexMetadata;
use crate::types::value::Value;
use crate::query::accepted::{join_free, lemma_statement_accepted, within_limits};

verus! {

/// Rows taken from an executor at a time.
pub const DEFAULT_BATCH_SIZE: usize = 128;

/// Why a statement was not run.
#[derive(Debug)]
pub enum QueryEngineError {
    Binder(BinderError),
    Planner(PlannerError),
    Execution(ExecutionError),
    Catalog(CatalogError),
    UnsupportedStatement,
    UnsupportedUniqueIndex,
}

/// What a statement gives back: rows, or the tag of the command it ran.
#[derive(Debug)]
pub enum QueryResult {
    Rows(ExecutionResult),
    Command { tag: String },
}

// ---------------------------------------------------------------------
// What running a statement does
// ---------------------------------------------------------------------

/// The columns `idxs` of `cols`, in that order.
pub open spec fn key_columns(cols: Seq<Column>, idxs: Seq<usize>) -> Seq<Column> {
    idxs.map_values(|i: usize| cols[i as int])
}

/// The sum of the declared sizes of `cols`.
pub open spec fn declared_sum(cols: Seq<Column>) -> nat
    decreases cols.len(),
{
    if cols.len() == 0 {
        0
    } else {
        declared_sum(cols.drop_last()) + column_declared_size(cols.last())
    }
}

/// The name of the index that a primary key of the table `table` makes.
pub open spec fn pk_index_name(table: Seq<char>) -> Seq<char> {
    table + "_pk"@
}

/// The single column of the result of EXPLAIN, as wide as the plan text.
pub open spec fn plan_column(c: Column, len: nat) -> bool {
    &&& c.name@ == "QUERY PLAN"@
    &&& c.sql_type == SqlType::Varchar
    &&& c.value_offset == 0
    &&& c.size == ColumnSize::Variable(len as usize)
}

/// `q` is the plan `p` as the optimizer leaves it.
pub open spec fn optimizes_to(cat: Catalog, p: PlanNode, q: PlanNode) -> bool {
    q@ == optimized(cat, p@)
}

/// The result of EXPLAIN over the plan `q`.
pub open spec fn explained(res: Result<QueryResult, QueryEngineError>, q: PlanNode) -> bool {
    res matches Ok(QueryResult::Rows(r)) && {
        let text = trim_newlines(plan_text(q, 0));
        &&& exists|c: Column| plan_column(c, utf8_len(text)) && #[trigger] laid_out(seq![c], r.schema)
        &&& r.rows@.len() == 1
        &&& r.rows@[0].rid is None
        &&& r.rows@[0].values@.len() == 1
        &&& r.rows@[0].values@[0] matches Value::Varchar(s) && s@ == text
    }
}

/// The rows a result holds, or the error the execution engine gave.
pub open spec fn rows_result(res: Result<QueryResult, QueryEngineError>) -> Option<Result<Seq<RowView>, ExecutionError>> {
    match res {
        Ok(QueryResult::Rows(r)) => Some(Ok(rows_of(r.rows@))),
        Err(QueryEngineError::Execution(e)) => Some(Err(e)),
        _ => None,
    }
}

/// A command result tagged `tag`.
pub open spec fn command_tagged(res: Result<QueryResult, QueryEngineError>, tag: Seq<char>) -> bool {
    res matches Ok(QueryResult::Command { tag: t }) && t@ == tag
}

/// CREATE TABLE: a duplicate name is refused with no change; else the table
/// is added, empty, with its columns laid out, and a primary key, if there
/// is one, adds an empty index `<table>_pk` over its columns.
pub open spec fn create_table_effect(before: Catalog, after: Catalog, ct: BoundCreateTable, res: Result<QueryResult, QueryEngineError>) -> bool {
    if before.table_named(ct.name@) is Some {
        &&& after == before
        &&& res matches Err(QueryEngineError::Catalog(CatalogError::DuplicateTable(n))) && n@ == ct.name@
    } else {
        let t = after.tables@.last();
        let keys = key_columns(ct.columns@, ct.primary_key_col_idxs@);
        &&& command_tagged(res, "CREATE TABLE"@)
        &&& after.tables@.len() == before.tables@.len() + 1
        &&& after.tables@.drop_last() == before.tables@
        &&& t.name@ == ct.name@
        &&& t.table_oid == before.tables@.len()
        &&& laid_out(ct.columns@, t.schema)
        &&& t.table_heap.len() == 0
        &&& if ct.primary_key_col_idxs@.len() == 0 {
            after.indexes@ == before.indexes@
        } else {
            let ix = after.indexes@.last();
            &&& after.indexes@.len() == before.indexes@.len() + 1
            &&& after.indexes@.drop_last() == before.indexes@
            &&& ix.index_oid == before.indexes@.len()
            &&& ix.index.metadata.name@ == pk_index_name(ct.name@)
            &&& ix.index.metadata.table_name@ == ct.name@
            &&& ix.index.metadata.key_attrs@ == ct.primary_key_col_idxs@
            &&& ix.index.metadata.is_pk
            &&& laid_out(keys, ix.index.metadata.key_schema)
            &&& ix.key_size == declared_sum(keys)
            &&& ix.index.entries@.len() == 0
        }
    }
}

/// CREATE TABLE as the catalog can hold it: room for one more table and
/// index, columns as the binder makes them, and a key size that fits.
pub open spec fn create_accepted(cat: Catalog, ct: BoundCreateTable) -> bool {
    &&& cat.tables@.len() + 1 < u32::MAX
    &&& cat.indexes@.len() + 1 < u32::MAX
    &&& all_well_formed(ct.columns@)
    &&& columns_fit(ct.columns@.len())
    &&& forall|k: int| 0 <= k < ct.primary_key_col_idxs@.len() ==> #[trigger] ct.primary_key_col_idxs@[k] < ct.columns@.len()
    &&& columns_fit(ct.primary_key_col_idxs@.len())
    &&& declared_sum(key_columns(ct.columns@, ct.primary_key_col_idxs@)) <= usize::MAX
}

/// CREATE INDEX: a unique index is refused; else the catalog makes it.
pub open spec fn create_index_effect(before: Catalog, after: Catalog, ci: BoundCreateIndex, res: Result<QueryResult, QueryEngineError>) -> bool {
    if ci.unique {
        after == before && res matches Err(QueryEngineError::UnsupportedUniqueIndex)
    } else {
        match before.table_named(ci.table_name@) {
            None => {
                &&& after == before
                &&& res matches Err(QueryEngineError::Catalog(CatalogError::TableNotFound(TableIdentifier::Name(n)))) && n@ == ci.table_name@
            },
            Some(t) => if before.has_index(ci.table_name@, ci.index_name@) {
                &&& after == before
                &&& res matches Err(QueryEngineError::Catalog(CatalogError::DuplicateIndex(n))) && n == ci.index_name
            } else {
                let ix = after.indexes@.last();
                &&& command_tagged(res, "CREATE INDEX"@)
                &&& after.tables@ == before.tables@
                &&& after.indexes@.len() == before.indexes@.len() + 1
                &&& after.indexes@.drop_last() == before.indexes@
                &&& ix.index_oid == before.indexes@.len()
                &&& ix.key_size == ci.key_size
                &&& ix.index.metadata == (IndexMetadata {
                    name: ci.index_name,
                    table_name: ci.table_name,
                    key_schema: ci.key_schema,
                    key_attrs: ci.key_attrs,
                    is_pk: false,
                })
                &&& entries_view(ix.index.entries@) == built_entries(
                    before.tables@[t].table_heap.tuples@, ci.key_attrs@, before.tables@[t].table_heap.len() as int)
            },
        }
    }
}

pub open spec fn create_index_accepted(cat: Catalog, ci: BoundCreateIndex) -> bool {
    &&& cat.indexes@.len() < u32::MAX
    &&& cat.table_named(ci.table_name@) matches Some(t) ==> forall|k: int| 0 <= k < ci.key_attrs@.len()
        ==> #[trigger] ci.key_attrs@[k] < cat.tables@[t].schema.columns@.len()
}

/// A statement the planner handles.
pub open spec fn is_query(b: BoundStatement) -> bool {
    ||| b is Select
    ||| b is Insert
    ||| b is Update
    ||| b is Delete
}

/// A query whose plan the optimizer takes and whose optimized plan the
/// execution engine runs.
pub open spec fn query_accepted(cat: Catalog, b: BoundStatement) -> bool {
    &&& plannable(b)
    &&& forall|p: PlanNode| #[trigger] statement_planned(cat, b, p) ==> {
        &&& joins_ok(p@)
        &&& forall|q: PlanNode| #[trigger] optimizes_to(cat, p, q) ==> plan_ok(cat, q)
    }
}

/// A query whose plan, raw or optimized, can be shown.
pub open spec fn explain_accepted(cat: Catalog, b: BoundStatement, raw: bool) -> bool {
    is_query(b) ==> {
        &&& plannable(b)
        &&& forall|p: PlanNode| #[trigger] statement_planned(cat, b, p) ==> if raw {
            p.depth() < usize::MAX
        } else {
            &&& joins_ok(p@)
            &&& forall|q: PlanNode| #[trigger] optimizes_to(cat, p, q) ==> q.depth() < usize::MAX
        }
    }
}

/// A bound statement that every stage it goes through accepts.
pub open spec fn bound_accepted(cat: Catalog, b: BoundStatement) -> bool {
    match b {
        BoundStatement::Explain(x) => explain_accepted(cat, *x.statement, x.raw),
        BoundStatement::CreateTable(ct) => create_accepted(cat, ct),
        BoundStatement::CreateIndex(ci) => create_index_accepted(cat, ci),
        _ => is_query(b) ==> query_accepted(cat, b),
    }
}

/// A statement whose every binding the later stages accept.
pub open spec fn statement_accepted(cat: Catalog, stmt: Statement) -> bool {
    forall|b: BoundStatement| #[trigger] statement_binds(cat, stmt, b) ==> bound_accepted(cat, b)
}

/// What a query does: a planning failure is reported with no change; else
/// its plan, optimized, is run.
pub open spec fn query_outcome(before: Catalog, after: Catalog, b: BoundStatement, res: Result<QueryResult, QueryEngineError>) -> bool {
    match statement_plan_failure(before, b) {
        Some(f) => after == before && (res matches Err(QueryEngineError::Planner(e)) && reports(e, f)),
        None => exists|p: PlanNode, q: PlanNode| {
            &&& #[trigger] statement_planned(before, b, p)
            &&& #[trigger] optimizes_to(before, p, q)
            &&& rows_result(res) matches Some(x) && outcome(before, after, q, x)
            &&& res matches Ok(QueryResult::Rows(r)) ==> r.schema@ == q.output_schema@
        },
    }
}

/// What EXPLAIN gives back: the plan of the query, optimized unless `raw`,
/// as text in one VARCHAR column named `QUERY PLAN`.
pub open spec fn explain_outcome(cat: Catalog, b: BoundStatement, raw: bool, res: Result<QueryResult, QueryEngineError>) -> bool {
    if !is_query(b) {
        res matches Err(QueryEngineError::UnsupportedStatement)
    } else {
        match statement_plan_failure(cat, b) {
            Some(f) => res matches Err(QueryEngineError::Planner(e)) && reports(e, f),
            None => if raw {
                exists|p: PlanNode| #[trigger] statement_planned(cat, b, p) && explained(res, p)
            } else {
                exists|p: PlanNode, q: PlanNode| #[trigger] statement_planned(cat, b, p)
                    && #[trigger] optimizes_to(cat, p, q) && explained(res, q)
            },
        }
    }
}

/// What running the bound statement `b` does.
pub open spec fn bound_outcome(before: Catalog, after: Catalog, b: BoundStatement, res: Result<QueryResult, QueryEngineError>) -> bool {
    match b {
        BoundStatement::CreateTable(ct) => create_table_effect(before, after, ct, res),
        BoundStatement::CreateIndex(ci) => create_index_effect(before, after, ci, res),
        BoundStatement::Explain(x) => after == before && explain_outcome(before, *x.statement, x.raw, res),
        BoundStatement::DropTable(_) => after == before && res matches Err(QueryEngineError::UnsupportedStatement),
        BoundStatement::DropIndex(_) => after == before && res matches Err(QueryEngineError::UnsupportedStatement),
        _ => query_outcome(before, after, b, res),
    }
}

/// What running the statement `stmt` does: a binding failure is reported
/// with no change; else the bound statement runs.
pub open spec fn statement_outcome(before: Catalog, after: Catalog, stmt: Statement, res: Result<QueryResult, QueryEngineError>) -> bool {
    ||| exists|e: BinderError| #[trigger] statement_fails(before, stmt, e) && after == before
        && (res matches Err(QueryEngineError::Binder(be)) && be == e)
    ||| exists|b: BoundStatement| #[trigger] statement_binds(before, stmt, b) && bound_outcome(before, after, b, res)
}

// ---------------------------------------------------------------------
// The engine
// ---------------------------------------------------------------------

/// Runs statements against a catalog: binds, plans, optimizes and executes
/// them.
pub struct QueryEngine<'a> {
    pub catalog: &'a mut Catalog,
}

impl<'a> QueryEngine<'a> {
    pub fn new(catalog: &'a mut Catalog) -> (res: Self)
        ensures
            *res.catalog == *old(catalog),
    {
        QueryEngine { catalog }
    }

    /// Runs a parsed statement, taking rows `DEFAULT_BATCH_SIZE` at a time.
    pub fn execute_sql(&mut self, statement: Statement) -> (res: Result<QueryResult, QueryEngineError>)
        requires
            old(self).catalog.wf(),
            statement_valid(statement),
            join_free(statement),
            within_limits(*old(self).catalog, statement),
        ensures
            final(self).catalog.wf(),
            statement_outcome(*old(self).catalog, *final(self).catalog, statement, res),
    {
        self.execute_sql_with_batch_size(statement, DEFAULT_BATCH_SIZE)
    }

    /// Runs a parsed statement, taking rows `batch_size` at a time.
    pub fn execute_sql_with_batch_size(&mut self, statement: Statement, batch_size: usize) -> (res: Result<QueryResult, QueryEngineError>)
        requires
            old(self).catalog.wf(),
            statement_valid(statement),
            join_free(statement),
            within_limits(*old(self).catalog, statement),
            batch_size > 0,
        ensures
            final(self).catalog.wf(),
            statement_outcome(*old(self).catalog, *final(self).catalog, statement, res),
    {
        run_statement(self.catalog, statement, batch_size)
    }
}

/// Binds, plans, optimizes and runs a parsed statement against `catalog`,
/// taking rows `batch_size` at a time.
pub fn run_statement(catalog: &mut Catalog, statement: Statement, batch_size: usize) -> (res: Result<QueryResult, QueryEngineError>)
    requires
        old(catalog).wf(),
        statement_valid(statement),
        join_free(statement),
        within_limits(*old(catalog), statement),
        batch_size > 0,
    ensures
        final(catalog).wf(),
        statement_outcome(*old(catalog), *final(catalog), statement, res),
{
    let ghost stmt = statement;
    proof {
        lemma_statement_accepted(*catalog, stmt);
    }
    let bound = match Binder::new(catalog).bind_statement(statement) {
        Ok(b) => b,
        Err(e) => {
            assert(statement_fails(*catalog, stmt, e));
            return Err(QueryEngineError::Binder(e));
        },
    };
    let ghost b = bound;
    assert(statement_binds(*catalog, stmt, b));
    assert(bound_accepted(*catalog, b));
    let res = match bound {
        BoundStatement::CreateTable(ct) => execute_create_table(catalog, ct),
        BoundStatement::CreateIndex(ci) => execute_create_index(catalog, ci),
        BoundStatement::Explain(x) => execute_explain(catalog, x),
        BoundStatement::DropTable(_) => Err(QueryEngineError::UnsupportedStatement),
        BoundStatement::DropIndex(_) => Err(QueryEngineError::UnsupportedStatement),
        _ => execute_query(catalog, bound, batch_size),
    };
    assert(bound_outcome(*old(catalog), *catalog, b, res));
    res
}

/// Plans, optimizes and runs a SELECT, INSERT, UPDATE or DELETE.
fn execute_query(catalog: &mut Catalog, bound: BoundStatement, batch_size: usize) -> (res: Result<QueryResult, QueryEngineError>)
    requires
        old(catalog).wf(),
        is_query(bound),
        query_accepted(*old(catalog), bound),
        batch_size > 0,
    ensures
        final(catalog).wf(),
        query_outcome(*old(catalog), *final(catalog), bound, res),
{
    let ghost b = bound;
    let ghost before = *catalog;
    let plan = match Planner::new(catalog).plan_statement(bound) {
        Ok(p) => p,
        Err(e) => return Err(QueryEngineError::Planner(e)),
    };
    assert(statement_planned(before, b, plan));
    let plan2 = Optimizer::new(catalog).optimize(&plan);
    assert(optimizes_to(before, plan, plan2));
    assert(plan_ok(before, plan2));
    let out = execute_plan(catalog, plan2, batch_size);
    let res = match out {
        Ok(r) => Ok(QueryResult::Rows(r)),
        Err(e) => Err(QueryEngineError::Execution(e)),
    };
    assert(rows_result(res) == Some(result_view(out)));
    res
}

/// Shows the plan of a query, optimized unless the statement asks for
/// the raw plan.
fn execute_explain(catalog: &Catalog, explain: BoundExplain) -> (res: Result<QueryResult, QueryEngineError>)
    requires
        catalog.wf(),
        explain_accepted(*catalog, *explain.statement, explain.raw),
    ensures
        explain_outcome(*catalog, *explain.statement, explain.raw, res),
{
    let BoundExplain { raw, statement } = explain;
    let statement = *statement;
    let ghost b = statement;
    if !(matches!(statement, BoundStatement::Select(_)) || matches!(statement, BoundStatement::Insert(_))
        || matches!(statement, BoundStatement::Update(_)) || matches!(statement, BoundStatement::Delete(_))) {
        return Err(QueryEngineError::UnsupportedStatement);
    }
    let plan = match Planner::new(catalog).plan_statement(statement) {
        Ok(p) => p,
        Err(e) => return Err(QueryEngineError::Planner(e)),
    };
    assert(statement_planned(*catalog, b, plan));
    let ghost p0 = plan;
    let plan = if raw {
        plan
    } else {
        let q = Optimizer::new(catalog).optimize(&plan);
        assert(optimizes_to(*catalog, p0, q));
        q
    };
    let text = format_plan(&plan);
    let ghost shown = text@;
    let width = str_byte_len(text.as_str());
    let mut columns: Vec<Column> = Vec::new();
    columns.push(Column::new_variable("QUERY PLAN".to_string(), SqlType::Varchar, width));
    let schema = Schema::new(columns.as_slice());
    let mut values: Vec<Value> = Vec::new();
    values.push(Value::Varchar(text));
    let mut rows: Vec<ExecutorRow> = Vec::new();
    rows.push(ExecutorRow { rid: None, values });
    proof {
        assert(columns@ =~= seq![columns@[0]]);
        assert(plan_column(columns@[0], width as nat));
        assert(laid_out(seq![columns@[0]], schema));
    }
    let res = Ok(QueryResult::Rows(ExecutionResult { schema, rows }));
    proof {
        assert(shown == trim_newlines(plan_text(plan, 0)));
        assert(width == utf8_len(shown));
        assert(rows@[0].values@[0] matches Value::Varchar(s) && s@ == shown);
        let r = res->Ok_0->Rows_0;
        assert(r.rows@.len() == 1);
        assert(r.rows@[0].rid is None);
        assert(r.rows@[0].values@.len() == 1);
        assert(r.schema == schema);
        assert(exists|c: Column| plan_column(c, utf8_len(shown)) && #[trigger] laid_out(seq![c], r.schema));
    }
    assert(explained(res, plan));
    res
}

/// Creates a table, and the index of its primary key if it has one.
fn execute_create_table(catalog: &mut Catalog, create_table: BoundCreateTable) -> (res: Result<QueryResult, QueryEngineError>)
    requires
        old(catalog).wf(),
        create_accepted(*old(catalog), create_table),
    ensures
        final(catalog).wf(),
        create_table_effect(*old(catalog), *final(catalog), create_table, res),
{
    let ghost ct = create_table;
    let ghost before = *catalog;
    let BoundCreateTable { name, columns, primary_key_col_idxs } = create_table;
    let table_name = name.clone();
    let schema = Schema::new(columns.as_slice());
    match catalog.create_tbl(name, schema) {
        Err(e) => return Err(QueryEngineError::Catalog(e)),
        Ok(_) => {},
    }
    let ghost mid = *catalog;
    if primary_key_col_idxs.len() > 0 {
        let mut index_name = table_name.clone();
        index_name.append("_pk");
        let mut keys: Vec<Column> = Vec::new();
        let mut key_size: usize = 0;
        let mut i: usize = 0;
        while i < primary_key_col_idxs.len()
            invariant
                i <= primary_key_col_idxs@.len(),
                primary_key_col_idxs@ == ct.primary_key_col_idxs@,
                columns@ == ct.columns@,
                create_accepted(before, ct),
                keys@ == key_columns(columns@, primary_key_col_idxs@).subrange(0, i as int),
                key_size == declared_sum(keys@),
            decreases primary_key_col_idxs@.len() - i,
        {
            let c = columns[primary_key_col_idxs[i]].clone();
            proof {
                let all = key_columns(columns@, primary_key_col_idxs@);
                lemma_declared_sum_prefix(all, i as int + 1);
                lemma_declared_sum_mono(all, i as int + 1);
                assert(all[i as int] == c);
            }
            key_size = key_size + c.declared_size();
            keys.push(c);
            i = i + 1;
            proof {
                assert(keys@ =~= key_columns(columns@, primary_key_col_idxs@).subrange(0, i as int));
            }
        }
        proof {
            assert(keys@ =~= key_columns(columns@, primary_key_col_idxs@));
            lemma_keys_well_formed(columns@, primary_key_col_idxs@);
            assert(catalog.tables@.drop_last() =~= before.tables@);
            lemma_fresh_table(before, *catalog, table_name@);
        }
        let key_schema = Schema::new(keys.as_slice());
        let ghost idx_name = index_name@;
        match catalog.create_index(index_name, table_name, key_schema, primary_key_col_idxs, key_size, true) {
            Err(e) => return Err(QueryEngineError::Catalog(e)),
            Ok(_) => {},
        }
        proof {
            let ix = catalog.indexes@.last();
            assert(idx_name == pk_index_name(ct.name@));
            assert(ix.index.metadata.name@ == pk_index_name(ct.name@));
            assert(ix.index.entries@.len() == entries_view(ix.index.entries@).len());
            assert(catalog.tables@ == mid.tables@);
        }
    }
    let res = Ok(QueryResult::Command { tag: "CREATE TABLE".to_string() });
    proof {
        assert(command_tagged(res, "CREATE TABLE"@));
        assert(catalog.tables@.drop_last() =~= before.tables@);
        assert(laid_out(ct.columns@, catalog.tables@.last().schema));
    }
    res
}

/// Creates an index; unique indexes are not supported.
fn execute_create_index(catalog: &mut Catalog, create_index: BoundCreateIndex) -> (res: Result<QueryResult, QueryEngineError>)
    requires
        old(catalog).wf(),
        create_index_accepted(*old(catalog), create_index),
    ensures
        final(catalog).wf(),
        create_index_effect(*old(catalog), *final(catalog), create_index, res),
{
    let BoundCreateIndex { index_name, table_name, key_schema, key_attrs, key_size, unique } = create_index;
    if unique {
        return Err(QueryEngineError::UnsupportedUniqueIndex);
    }
    match catalog.create_index(index_name, table_name, key_schema, key_attrs, key_size, false) {
        Err(e) => return Err(QueryEngineError::Catalog(e)),
        Ok(_) => {},
    }
    Ok(QueryResult::Command { tag: "CREATE INDEX".to_string() })
}

/// A table just added under a new name is found under it, and has no
/// indexes yet.
proof fn lemma_fresh_table(before: Catalog, after: Catalog, name: Seq<char>)
    requires
        before.wf(),
        after.wf(),
        before.table_named(name) is None,
        after.tables@.len() == before.tables@.len() + 1,
        after.tables@.drop_last() == before.tables@,
        after.tables@.last().name@ == name,
        after.indexes@ == before.indexes@,
    ensures
        after.table_named(name) == Some(before.tables@.len() as int),
        forall|x: Seq<char>| !#[trigger] after.has_index(name, x),
{
    let n = before.tables@.len() as int;
    assert(after.tables@[n].name@ == name);
    let c = choose|i: int| 0 <= i < after.tables@.len() && (#[trigger] after.tables@[i]).name@ == name;
    if c != n {
        assert(after.tables@[c] == after.tables@.drop_last()[c]);
        assert(before.tables@[c].name@ == name);
    }
    assert forall|x: Seq<char>| !#[trigger] after.has_index(name, x) by {
        if after.has_index(name, x) {
            let i = choose|i: int| 0 <= i < after.indexes@.len()
                && (#[trigger] after.indexes@[i]).index.metadata.table_name@ == name
                && after.indexes@[i].index.metadata.name@ == x;
            let t = choose|t: int| 0 <= t < before.tables@.len()
                && (#[trigger] before.tables@[t]).name@ == (#[trigger] before.indexes@[i]).index.metadata.table_name@
                && forall|k: int| 0 <= k < before.indexes@[i].index.metadata.key_attrs@.len()
                    ==> #[trigger] before.indexes@[i].index.metadata.key_attrs@[k] < before.tables@[t].schema.columns@.len();
            assert(before.tables@[t].name@ == name);
        }
    }
}

proof fn lemma_declared_sum_mono(cols: Seq<Column>, n: int)
    requires
        0 <= n <= cols.len(),
    ensures
        declared_sum(cols.subrange(0, n)) <= declared_sum(cols),
    decreases cols.len() - n,
{
    if n < cols.len() {
        lemma_declared_sum_mono(cols, n + 1);
        lemma_declared_sum_prefix(cols, n + 1);
    } else {
        assert(cols.subrange(0, n) =~= cols);
    }
}

proof fn lemma_declared_sum_prefix(cols: Seq<Column>, n: int)
    requires
        0 < n <= cols.len(),
    ensures
        declared_sum(cols.subrange(0, n)) == declared_sum(cols.subrange(0, n - 1)) + column_declared_size(cols[n - 1]),
{
    assert(cols.subrange(0, n).drop_last() =~= cols.subrange(0, n - 1));
}

proof fn lemma_keys_well_formed(cols: Seq<Column>, idxs: Seq<usize>)
    requires
        all_well_formed(cols),
        forall|k: int| 0 <= k < idxs.len() ==> #[trigger] idxs[k] < cols.len(),
    ensures
        all_well_formed(key_columns(cols, idxs)),
{
    assert forall|k: int| 0 <= k < key_columns(cols, idxs).len() implies
        crate::catalog::column::column_well_formed(#[trigger] key_columns(cols, idxs)[k]) by {
        assert(idxs[k] < cols.len());
    }
}

} // verus!
