use vstd::prelude::*;
use crate::catalog::catalog::Catalog;
use crate::catalog::column::{Column, ColumnSize};
use crate::catalog::error::{CatalogError, TableIdentifier};
use crate::catalog::types::{SqlType, spec_inline_size};
use crate::common::position::index_of;
use crate::common::strings::{lowercase, str_eq, str_starts_with, to_lowercase};
use crate::query::binder::error::BinderError;
use crate::query::binder::expression::{BoundExpression, ColumnRef, are_column_refs_unique, refs_unique};
use crate::query::binder::statement::{
    BoundCreateTable, BoundDelete, BoundExplain, BoundInsert, BoundInsertSource, BoundSelect,
    BoundStatement, BoundUpdate,
};
use crate::query::binder::table_ref::{
    BoundBaseTableRef, BoundExpressionListRef, BoundJoin, BoundTableRef, base_tables_of, bound_name,
};
use crate::query::binder::transformer::{
    BindContext, BindFailure, BindScope, Binder, ScopeView, bound_name_string, agrees, agrees_vec, bind_expr, bind_exprs,
    resolve_in_table, same_name, scope_of, wildcard_columns,
};
use crate::query::expression::Expression;
use crate::query::statement::{
    CreateColumn, CreateTableStatement, DeleteStatement, ExplainStatement, InsertSource,
    InsertStatement, SelectItem, SelectStatement, Statement, UpdateStatement,
};
use crate::query::table_ref::TableRef as ParsedTableRef;

verus! {

// ---------------------------------------------------------------------
// What binding a statement means
// ---------------------------------------------------------------------

/// `e` is the error that a failed binding step reports.
pub open spec fn fails_with<T>(e: BinderError, r: Result<T, BindFailure>) -> bool {
    match r {
        Ok(_) => false,
        Err(BindFailure::Error(f)) => e == f,
        Err(BindFailure::Message(t)) => match e {
            BinderError::UnsupportedExpression(m) => m@ == t,
            _ => false,
        },
    }
}

/// `b` is the catalog's table `name`, under `alias`.
pub open spec fn base_binds(cat: Catalog, name: String, alias: Option<String>, b: BoundBaseTableRef) -> bool {
    match cat.table_named(name@) {
        Some(i) => {
            &&& b.table_name == name
            &&& b.alias == alias
            &&& b.table_oid == cat.tables@[i].table_oid
            &&& b.schema@ == cat.tables@[i].schema@
        },
        None => false,
    }
}

/// The catalog has no table `name`, and `e` says so.
pub open spec fn base_fails(cat: Catalog, name: String, e: BinderError) -> bool {
    &&& cat.table_named(name@) is None
    &&& match e {
        BinderError::Catalog(CatalogError::TableNotFound(TableIdentifier::Name(n))) => n@ == name@,
        _ => false,
    }
}

/// The scope that a FROM clause gives the rest of a query.
pub open spec fn table_scope(t: BoundTableRef) -> ScopeView {
    if t is ExprList {
        ScopeView::ExprList
    } else {
        ScopeView::Tables(base_tables_of(t))
    }
}

/// Binding an optional expression.
pub open spec fn bind_opt(w: Option<Expression>, scope: ScopeView) -> Result<Option<BoundExpression>, BindFailure> {
    match w {
        None => Ok(None),
        Some(e) => match bind_expr(e, scope) {
            Err(f) => Err(f),
            Ok(b) => Ok(Some(b)),
        },
    }
}

/// `b` is the FROM clause `t` bound: every table found in the catalog, and
/// each join condition bound in the scope of both sides of its join.
pub open spec fn binds_table(cat: Catalog, t: ParsedTableRef, b: BoundTableRef) -> bool
    decreases t,
{
    match t {
        ParsedTableRef::BaseTable { table_name, alias } => match b {
            BoundTableRef::BaseTable(bb) => base_binds(cat, table_name, alias, bb),
            _ => false,
        },
        ParsedTableRef::Join { left, right, join_type, condition } => match b {
            BoundTableRef::Join(j) => {
                &&& binds_table(cat, *left, *j.left)
                &&& binds_table(cat, *right, *j.right)
                &&& j.join_type == join_type
                &&& bind_opt(condition, ScopeView::Tables(base_tables_of(*j.left) + base_tables_of(*j.right)))
                    == Ok::<Option<BoundExpression>, BindFailure>(j.condition)
            },
            _ => false,
        },
    }
}

/// Binding the FROM clause `t` fails with `e`: at the first table that is
/// missing, or at the first join condition that does not bind.
pub open spec fn table_fails(cat: Catalog, t: ParsedTableRef, e: BinderError) -> bool
    decreases t,
{
    match t {
        ParsedTableRef::BaseTable { table_name, .. } => base_fails(cat, table_name, e),
        ParsedTableRef::Join { left, right, condition, .. } => {
            ||| table_fails(cat, *left, e)
            ||| exists|l: BoundTableRef| #[trigger] binds_table(cat, *left, l) && table_fails(cat, *right, e)
            ||| exists|l: BoundTableRef, r: BoundTableRef| #[trigger] binds_table(cat, *left, l)
                && #[trigger] binds_table(cat, *right, r)
                && fails_with(e, bind_opt(condition, ScopeView::Tables(base_tables_of(l) + base_tables_of(r))))
        },
    }
}

pub open spec fn wildcard_message() -> Seq<char> {
    "select * without table scope"@
}

/// What `*` stands for in a scope.
pub open spec fn wildcard_of(scope: ScopeView) -> Result<Seq<BoundExpression>, BindFailure> {
    match scope {
        ScopeView::Tables(ts) => Ok(wildcard_columns(ts)),
        _ => Err(BindFailure::Message(wildcard_message())),
    }
}

/// Binding the first `n` items of a select list.
pub open spec fn bind_items(items: Seq<SelectItem>, scope: ScopeView, n: int) -> Result<Seq<BoundExpression>, BindFailure>
    decreases n,
{
    if n <= 0 {
        Ok(Seq::empty())
    } else {
        match bind_items(items, scope, n - 1) {
            Err(f) => Err(f),
            Ok(prev) => match items[n - 1] {
                SelectItem::Wildcard => match wildcard_of(scope) {
                    Err(f) => Err(f),
                    Ok(cols) => Ok(prev + cols),
                },
                SelectItem::Expression(e) => match bind_expr(e, scope) {
                    Err(f) => Err(f),
                    Ok(b) => Ok(prev.push(b)),
                },
            },
        }
    }
}

/// Binding a select list: every item, and at least one expression in all.
pub open spec fn bind_select_items(items: Seq<SelectItem>, scope: ScopeView) -> Result<Seq<BoundExpression>, BindFailure> {
    match bind_items(items, scope, items.len() as int) {
        Err(f) => Err(f),
        Ok(s) => if s.len() == 0 {
            Err(BindFailure::Error(BinderError::EmptySelectProjection))
        } else {
            Ok(s)
        },
    }
}

pub open spec fn select_binds(cat: Catalog, stmt: SelectStatement, s: BoundSelect) -> bool {
    &&& binds_table(cat, stmt.table, s.table)
    &&& bind_select_items(stmt.projection@, table_scope(s.table)) == Ok::<Seq<BoundExpression>, BindFailure>(s.projection@)
    &&& bind_opt(stmt.where_clause, table_scope(s.table)) == Ok::<Option<BoundExpression>, BindFailure>(s.where_)
}

pub open spec fn select_fails(cat: Catalog, stmt: SelectStatement, e: BinderError) -> bool {
    ||| table_fails(cat, stmt.table, e)
    ||| exists|t: BoundTableRef| #[trigger] binds_table(cat, stmt.table, t) && {
        ||| fails_with(e, bind_select_items(stmt.projection@, table_scope(t)))
        ||| (bind_select_items(stmt.projection@, table_scope(t)) is Ok
            && fails_with(e, bind_opt(stmt.where_clause, table_scope(t))))
    }
}

/// Binding the first `n` assignments of an UPDATE: each target a column of
/// the table, each value bound in the table's scope.
pub open spec fn bind_assignments(asg: Seq<(String, Expression)>, t: BoundBaseTableRef, n: int) -> Result<Seq<(ColumnRef, BoundExpression)>, BindFailure>
    decreases n,
{
    if n <= 0 {
        Ok(Seq::empty())
    } else {
        match bind_assignments(asg, t, n - 1) {
            Err(f) => Err(f),
            Ok(prev) => match resolve_in_table(t, asg[n - 1].0) {
                Err(e) => Err(BindFailure::Error(e)),
                Ok(c) => match bind_expr(asg[n - 1].1, ScopeView::Tables(seq![t])) {
                    Err(f) => Err(f),
                    Ok(b) => Ok(prev.push((c, b))),
                },
            },
        }
    }
}

pub open spec fn update_binds(cat: Catalog, stmt: UpdateStatement, u: BoundUpdate) -> bool {
    &&& base_binds(cat, stmt.table_name, None, u.table)
    &&& bind_assignments(stmt.assignments@, u.table, stmt.assignments@.len() as int)
        == Ok::<Seq<(ColumnRef, BoundExpression)>, BindFailure>(u.target_exprs@)
    &&& bind_opt(stmt.where_clause, ScopeView::Tables(seq![u.table])) == Ok::<Option<BoundExpression>, BindFailure>(u.filter_expr)
}

pub open spec fn update_fails(cat: Catalog, stmt: UpdateStatement, e: BinderError) -> bool {
    ||| base_fails(cat, stmt.table_name, e)
    ||| exists|t: BoundBaseTableRef| #[trigger] base_binds(cat, stmt.table_name, None, t) && {
        ||| fails_with(e, bind_assignments(stmt.assignments@, t, stmt.assignments@.len() as int))
        ||| (bind_assignments(stmt.assignments@, t, stmt.assignments@.len() as int) is Ok
            && fails_with(e, bind_opt(stmt.where_clause, ScopeView::Tables(seq![t]))))
    }
}

pub open spec fn delete_binds(cat: Catalog, stmt: DeleteStatement, d: BoundDelete) -> bool {
    &&& base_binds(cat, stmt.table_name, None, d.table)
    &&& bind_opt(stmt.where_clause, ScopeView::Tables(seq![d.table])) == Ok::<Option<BoundExpression>, BindFailure>(d.filter_expr)
}

pub open spec fn delete_fails(cat: Catalog, stmt: DeleteStatement, e: BinderError) -> bool {
    ||| base_fails(cat, stmt.table_name, e)
    ||| exists|t: BoundBaseTableRef| #[trigger] base_binds(cat, stmt.table_name, None, t)
        && fails_with(e, bind_opt(stmt.where_clause, ScopeView::Tables(seq![t])))
}

/// Resolving the first `n` column names of an INSERT in its table.
pub open spec fn resolve_names(names: Seq<String>, t: BoundBaseTableRef, n: int) -> Result<Seq<ColumnRef>, BinderError>
    decreases n,
{
    if n <= 0 {
        Ok(Seq::empty())
    } else {
        match resolve_names(names, t, n - 1) {
            Err(e) => Err(e),
            Ok(prev) => match resolve_in_table(t, names[n - 1]) {
                Err(e) => Err(e),
                Ok(c) => Ok(prev.push(c)),
            },
        }
    }
}

/// The columns an INSERT writes: those it names, each once, or else every
/// column of the table.
pub open spec fn insert_columns(names: Option<Seq<String>>, t: BoundBaseTableRef) -> Result<Seq<ColumnRef>, BinderError> {
    match names {
        None => Ok(t.schema.columns@.map_values(|c: Column| ColumnRef::Unqualified { column: c.name })),
        Some(ns) => match resolve_names(ns, t, ns.len() as int) {
            Err(e) => Err(e),
            Ok(refs) => if refs_unique(refs) { Ok(refs) } else { Err(BinderError::DuplicateInsertColumns) },
        },
    }
}

/// Binding the first `n` rows of a VALUES list: each row as long as the
/// column list, its expressions bound without a table scope.
pub open spec fn bind_rows(rows: Seq<Seq<Expression>>, num_cols: nat, n: int) -> Result<Seq<Seq<BoundExpression>>, BindFailure>
    decreases n,
{
    if n <= 0 {
        Ok(Seq::empty())
    } else {
        match bind_rows(rows, num_cols, n - 1) {
            Err(f) => Err(f),
            Ok(prev) => if rows[n - 1].len() != num_cols {
                Err(BindFailure::Error(BinderError::InsertValuesDoesntMatchColumns))
            } else {
                match bind_exprs(rows[n - 1], ScopeView::NoScope, rows[n - 1].len() as int) {
                    Err(f) => Err(f),
                    Ok(r) => Ok(prev.push(r)),
                }
            },
        }
    }
}

pub open spec fn bind_values(rows: Seq<Seq<Expression>>, num_cols: nat) -> Result<Seq<Seq<BoundExpression>>, BindFailure> {
    if rows.len() == 0 {
        Err(BindFailure::Error(BinderError::InsertValuesEmpty))
    } else {
        bind_rows(rows, num_cols, rows.len() as int)
    }
}

pub open spec fn rows_of(rows: Seq<Vec<Expression>>) -> Seq<Seq<Expression>> {
    rows.map_values(|r: Vec<Expression>| r@)
}

pub open spec fn bound_rows_of(rows: Seq<Vec<BoundExpression>>) -> Seq<Seq<BoundExpression>> {
    rows.map_values(|r: Vec<BoundExpression>| r@)
}

pub open spec fn unnamed() -> Seq<char> {
    "<unnamed>"@
}

pub open spec fn names_of(c: Option<Vec<String>>) -> Option<Seq<String>> {
    match c {
        None => None,
        Some(v) => Some(v@),
    }
}

pub open spec fn reserved_prefix() -> Seq<char> {
    "__"@
}

/// Names that begin with `__` are reserved.
pub open spec fn is_reserved(name: Seq<char>) -> bool {
    2 <= name.len() && name.subrange(0, 2) == reserved_prefix()
}

pub open spec fn insert_binds(cat: Catalog, stmt: InsertStatement, ins: BoundInsert) -> bool {
    &&& !is_reserved(stmt.table_name@)
    &&& base_binds(cat, stmt.table_name, None, ins.table)
    &&& insert_columns(names_of(stmt.columns), ins.table) == Ok::<Seq<ColumnRef>, BinderError>(ins.columns@)
    &&& match (stmt.source, ins.source) {
        (InsertSource::Values(rows), BoundInsertSource::Values(l)) => {
            &&& l.identifier@ == unnamed()
            &&& bind_values(rows_of(rows@), ins.columns@.len()) == Ok::<Seq<Seq<BoundExpression>>, BindFailure>(bound_rows_of(l.values@))
        },
        (InsertSource::Select(s), BoundInsertSource::Select(b)) => select_binds(cat, s, b),
        _ => false,
    }
}

pub open spec fn insert_fails(cat: Catalog, stmt: InsertStatement, e: BinderError) -> bool {
    if is_reserved(stmt.table_name@) {
        e == BinderError::InvalidTableName(stmt.table_name)
    } else {
        ||| base_fails(cat, stmt.table_name, e)
        ||| exists|t: BoundBaseTableRef| #[trigger] base_binds(cat, stmt.table_name, None, t) && {
            ||| insert_columns(names_of(stmt.columns), t) == Err::<Seq<ColumnRef>, BinderError>(e)
            ||| match insert_columns(names_of(stmt.columns), t) {
                Ok(cols) => match stmt.source {
                    InsertSource::Values(rows) => fails_with(e, bind_values(rows_of(rows@), cols.len())),
                    InsertSource::Select(s) => select_fails(cat, s, e),
                },
                Err(_) => false,
            }
        }
    }
}

/// The column a CREATE TABLE column definition declares.
pub open spec fn bound_column(c: CreateColumn) -> Column {
    if c.sql_type == SqlType::Varchar {
        Column { name: c.name, sql_type: SqlType::Varchar, value_offset: 0, size: ColumnSize::Variable(c.size.unwrap()) }
    } else {
        Column { name: c.name, sql_type: c.sql_type, value_offset: 0, size: ColumnSize::Inline(spec_inline_size(c.sql_type) as usize) }
    }
}

/// Column definitions as the parser makes them: a size exactly for VARCHAR.
pub open spec fn columns_valid(cols: Seq<CreateColumn>) -> bool {
    forall|i: int| 0 <= i < cols.len() ==> ((#[trigger] cols[i]).sql_type == SqlType::Varchar) == (cols[i].size is Some)
}

/// Whether name `k` repeats, ignoring case, one of the names before it.
pub open spec fn repeats_earlier(names: Seq<Seq<char>>, k: int) -> bool {
    exists|j: int| 0 <= j < k && same_name(#[trigger] names[j], names[k])
}

/// The first of the first `n` names that repeats an earlier one.
pub open spec fn first_repeat(names: Seq<Seq<char>>, n: int) -> Option<int>
    decreases n,
{
    if n <= 0 {
        None
    } else {
        match first_repeat(names, n - 1) {
            Some(k) => Some(k),
            None => if repeats_earlier(names, n - 1) { Some(n - 1) } else { None },
        }
    }
}

/// The first of the first `n` columns named `name`, ignoring case.
pub open spec fn first_named(cols: Seq<Column>, name: Seq<char>, n: int) -> Option<int>
    decreases n,
{
    if n <= 0 {
        None
    } else {
        match first_named(cols, name, n - 1) {
            Some(k) => Some(k),
            None => if same_name(cols[n - 1].name@, name) { Some(n - 1) } else { None },
        }
    }
}

/// The positions of the first `n` primary key columns.
pub open spec fn pk_positions(pk: Seq<String>, cols: Seq<Column>, n: int) -> Result<Seq<usize>, BinderError>
    decreases n,
{
    if n <= 0 {
        Ok(Seq::empty())
    } else {
        match pk_positions(pk, cols, n - 1) {
            Err(e) => Err(e),
            Ok(prev) => if repeats_earlier(pk.map_values(|s: String| s@), n - 1) {
                Err(BinderError::DuplicatePrimaryKeyColumn(pk[n - 1]))
            } else {
                match first_named(cols, pk[n - 1]@, cols.len() as int) {
                    None => Err(BinderError::PrimaryKeyColumnNotFound(pk[n - 1])),
                    Some(k) => Ok(prev.push(k as usize)),
                }
            },
        }
    }
}

pub open spec fn seq_of<T, E>(r: Result<Vec<T>, E>) -> Result<Seq<T>, E> {
    match r {
        Ok(v) => Ok(v@),
        Err(e) => Err(e),
    }
}

/// CREATE TABLE: no column twice, at least one column, and a primary key
/// of columns of the table, each once.
pub open spec fn create_table_result(stmt: CreateTableStatement) -> Result<(Seq<Column>, Seq<usize>), BinderError> {
    let names = stmt.columns@.map_values(|c: CreateColumn| c.name@);
    let cols = stmt.columns@.map_values(|c: CreateColumn| bound_column(c));
    match first_repeat(names, names.len() as int) {
        Some(k) => Err(BinderError::DuplicateColumn(stmt.columns@[k].name)),
        None => if cols.len() == 0 {
            Err(BinderError::CreateTableWithoutColumns)
        } else {
            match pk_positions(stmt.primary_key@, cols, stmt.primary_key@.len() as int) {
                Err(e) => Err(e),
                Ok(p) => Ok((cols, p)),
            }
        },
    }
}

/// Statements as the parser makes them.
pub open spec fn statement_valid(stmt: Statement) -> bool
    decreases stmt,
{
    match stmt {
        Statement::CreateTable(c) => columns_valid(c.columns@),
        Statement::Explain(x) => statement_valid(*x.statement),
        _ => true,
    }
}

/// Whether `stmt` is as the parser makes it: in a CREATE TABLE, exactly the
/// VARCHAR columns carry a size.
pub fn statement_is_valid(stmt: &Statement) -> (res: bool)
    ensures
        res == statement_valid(*stmt),
    decreases stmt,
{
    match stmt {
        Statement::CreateTable(c) => {
            let cols = &c.columns;
            let mut i: usize = 0;
            while i < cols.len()
                invariant
                    i <= cols@.len(),
                    cols@ == c.columns@,
                    statement_valid(*stmt) == columns_valid(cols@),
                    forall|k: int| 0 <= k < i ==> ((#[trigger] cols@[k]).sql_type == SqlType::Varchar) == (cols@[k].size is Some),
                decreases cols@.len() - i,
            {
                let is_varchar = match cols[i].sql_type {
                    SqlType::Varchar => true,
                    _ => false,
                };
                if is_varchar != cols[i].size.is_some() {
                    assert(!(((cols@[index_of(i)]).sql_type == SqlType::Varchar) == (cols@[index_of(i)].size is Some)));
                    assert(!columns_valid(c.columns@));
                    return false;
                }
                i = i + 1;
            }
            true
        },
        Statement::Explain(x) => statement_is_valid(&x.statement),
        _ => true,
    }
}

/// `b` is the statement `stmt` bound against the catalog.
pub open spec fn statement_binds(cat: Catalog, stmt: Statement, b: BoundStatement) -> bool
    decreases stmt,
{
    match (stmt, b) {
        (Statement::Select(s), BoundStatement::Select(bs)) => select_binds(cat, s, bs),
        (Statement::Insert(s), BoundStatement::Insert(bs)) => insert_binds(cat, s, bs),
        (Statement::Update(s), BoundStatement::Update(bs)) => update_binds(cat, s, bs),
        (Statement::Delete(s), BoundStatement::Delete(bs)) => delete_binds(cat, s, bs),
        (Statement::CreateTable(s), BoundStatement::CreateTable(bs)) => {
            &&& bs.name == s.table_name
            &&& create_table_result(s) == Ok::<(Seq<Column>, Seq<usize>), BinderError>((bs.columns@, bs.primary_key_col_idxs@))
        },
        (Statement::Explain(x), BoundStatement::Explain(bx)) => {
            &&& bx.raw == x.raw
            &&& statement_binds(cat, *x.statement, *bx.statement)
        },
        _ => false,
    }
}

/// Binding the statement `stmt` fails with `e`.
pub open spec fn statement_fails(cat: Catalog, stmt: Statement, e: BinderError) -> bool
    decreases stmt,
{
    match stmt {
        Statement::Select(s) => select_fails(cat, s, e),
        Statement::Insert(s) => insert_fails(cat, s, e),
        Statement::Update(s) => update_fails(cat, s, e),
        Statement::Delete(s) => delete_fails(cat, s, e),
        Statement::CreateTable(s) => create_table_result(s) == Err::<(Seq<Column>, Seq<usize>), BinderError>(e),
        Statement::Explain(x) => statement_fails(cat, *x.statement, e),
    }
}

proof fn lemma_items_err_sticks(items: Seq<SelectItem>, scope: ScopeView, k: int, n: int)
    requires
        0 <= k <= n,
        bind_items(items, scope, k) is Err,
    ensures
        bind_items(items, scope, n) == bind_items(items, scope, k),
    decreases n - k,
{
    if k < n {
        lemma_items_err_sticks(items, scope, k, n - 1);
    }
}

proof fn lemma_assignments_err_sticks(asg: Seq<(String, Expression)>, t: BoundBaseTableRef, k: int, n: int)
    requires
        0 <= k <= n,
        bind_assignments(asg, t, k) is Err,
    ensures
        bind_assignments(asg, t, n) == bind_assignments(asg, t, k),
    decreases n - k,
{
    if k < n {
        lemma_assignments_err_sticks(asg, t, k, n - 1);
    }
}

proof fn lemma_rows_err_sticks(rows: Seq<Seq<Expression>>, num_cols: nat, k: int, n: int)
    requires
        0 <= k <= n,
        bind_rows(rows, num_cols, k) is Err,
    ensures
        bind_rows(rows, num_cols, n) == bind_rows(rows, num_cols, k),
    decreases n - k,
{
    if k < n {
        lemma_rows_err_sticks(rows, num_cols, k, n - 1);
    }
}

proof fn lemma_names_err_sticks(names: Seq<String>, t: BoundBaseTableRef, k: int, n: int)
    requires
        0 <= k <= n,
        resolve_names(names, t, k) is Err,
    ensures
        resolve_names(names, t, n) == resolve_names(names, t, k),
    decreases n - k,
{
    if k < n {
        lemma_names_err_sticks(names, t, k, n - 1);
    }
}

proof fn lemma_bound_table_not_list(cat: Catalog, t: ParsedTableRef, b: BoundTableRef)
    requires
        binds_table(cat, t, b),
    ensures
        !(b is ExprList),
{
}

proof fn lemma_repeat_found(names: Seq<Seq<char>>, k: int, n: int)
    requires
        0 <= k < n,
        first_repeat(names, k) is None,
        repeats_earlier(names, k),
    ensures
        first_repeat(names, n) == Some(k),
    decreases n - k,
{
    if n > k + 1 {
        lemma_repeat_found(names, k, n - 1);
    }
}

proof fn lemma_first_named_found(cols: Seq<Column>, name: Seq<char>, k: int, n: int)
    requires
        0 <= k < n,
        first_named(cols, name, k) is None,
        same_name(cols[k].name@, name),
    ensures
        first_named(cols, name, n) == Some(k),
    decreases n - k,
{
    if n > k + 1 {
        lemma_first_named_found(cols, name, k, n - 1);
    }
}

proof fn lemma_pk_err_sticks(pk: Seq<String>, cols: Seq<Column>, k: int, n: int)
    requires
        0 <= k <= n,
        pk_positions(pk, cols, k) is Err,
    ensures
        pk_positions(pk, cols, n) == pk_positions(pk, cols, k),
    decreases n - k,
{
    if k < n {
        lemma_pk_err_sticks(pk, cols, k, n - 1);
    }
}

/// The column a definition declares.
pub fn bind_create_column(column: CreateColumn) -> (res: Column)
    requires
        (column.sql_type == SqlType::Varchar) == (column.size is Some),
    ensures
        res == bound_column(column),
{
    match column.size {
        Some(size) => Column::new_variable(column.name, SqlType::Varchar, size),
        None => Column::new_static(column.name, column.sql_type),
    }
}

/// The first position of a column named `name`, ignoring case.
fn position_of_column(columns: &Vec<Column>, key: &String) -> (res: Option<usize>)
    ensures
        match first_named(columns@, key@, columns@.len() as int) {
            Some(k) => res == Some(k as usize),
            None => res is None,
        },
{
    let ghost name = key@;
    let mut i: usize = 0;
    while i < columns.len()
        invariant
            i <= columns@.len(),
            first_named(columns@, key@, index_of(i)) is None,
        decreases columns@.len() - i,
    {
        let lower = to_lowercase(columns[i].name.as_str());
        let target = to_lowercase(key.as_str());
        if str_eq(lower.as_str(), target.as_str()) {
            proof { lemma_first_named_found(columns@, key@, index_of(i), columns@.len() as int); }
            return Some(i);
        }
        i = i + 1;
    }
    None
}

/// The positions of the primary key columns among `columns`.
pub fn resolve_primary_key_col_idxs(primary_key: &Vec<String>, columns: &Vec<Column>) -> (res: Result<Vec<usize>, BinderError>)
    ensures
        seq_of(res) == pk_positions(primary_key@, columns@, primary_key@.len() as int),
{
    let ghost pk = primary_key@;
    let ghost names = pk.map_values(|s: String| s@);
    let mut seen: Vec<String> = Vec::new();
    let mut idxs: Vec<usize> = Vec::new();
    let mut i: usize = 0;
    while i < primary_key.len()
        invariant
            i <= pk.len(),
            pk == primary_key@,
            names == pk.map_values(|s: String| s@),
            seen@.len() == i,
            forall|k: int| 0 <= k < i ==> (#[trigger] seen@[k])@ == lowercase(names[k]),
            pk_positions(pk, columns@, index_of(i)) == Ok::<Seq<usize>, BinderError>(idxs@),
        decreases pk.len() - i,
    {
        let key = to_lowercase(primary_key[i].as_str());
        let mut j: usize = 0;
        while j < seen.len()
            invariant
                j <= seen@.len(),
                seen@.len() == i,
                i < pk.len(),
                pk == primary_key@,
                pk_positions(pk, columns@, index_of(i)) == Ok::<Seq<usize>, BinderError>(idxs@),
                names == pk.map_values(|s: String| s@),
                key@ == lowercase(pk[index_of(i)]@),
                forall|k: int| 0 <= k < i ==> (#[trigger] seen@[k])@ == lowercase(names[k]),
                forall|k: int| 0 <= k < j ==> !same_name(#[trigger] names[k], names[index_of(i)]),
            decreases seen@.len() - j,
        {
            if str_eq(seen[j].as_str(), key.as_str()) {
                proof {
                    assert(same_name(names[index_of(j)], names[index_of(i)]));
                    assert(repeats_earlier(names, index_of(i)));
                    lemma_pk_err_sticks(pk, columns@, index_of(i) + 1, pk.len() as int);
                }
                return Err(BinderError::DuplicatePrimaryKeyColumn(primary_key[i].clone()));
            }
            j = j + 1;
        }
        assert(!repeats_earlier(names, index_of(i)));
        match position_of_column(columns, &primary_key[i]) {
            None => {
                proof { lemma_pk_err_sticks(pk, columns@, index_of(i) + 1, pk.len() as int); }
                return Err(BinderError::PrimaryKeyColumnNotFound(primary_key[i].clone()));
            },
            Some(k) => idxs.push(k),
        }
        seen.push(key);
        i = i + 1;
    }
    Ok(idxs)
}

// ---------------------------------------------------------------------
// Binding statements

// ---------------------------------------------------------------------

impl<'a> Binder<'a> {
    /// Binds a statement against the catalog.
    pub fn bind_statement(&self, stmt: Statement) -> (res: Result<BoundStatement, BinderError>)
        requires
            self.catalog.wf(),
            statement_valid(stmt),
        ensures
            match res {
                Ok(b) => statement_binds(*self.catalog, stmt, b),
                Err(e) => statement_fails(*self.catalog, stmt, e),
            },
        decreases stmt,
    {
        match stmt {
            Statement::Select(s) => {
                let b = self.bind_select(s)?;
                Ok(BoundStatement::Select(b))
            },
            Statement::Insert(s) => self.bind_insert(s),
            Statement::Update(s) => self.bind_update(s),
            Statement::Delete(s) => self.bind_delete(s),
            Statement::CreateTable(s) => self.bind_create_tbl(s),
            Statement::Explain(ExplainStatement { raw, statement }) => {
                let inner = self.bind_statement(*statement)?;
                Ok(BoundStatement::Explain(BoundExplain { raw, statement: Box::new(inner) }))
            },
        }
    }

    /// Finds the table `table_name` in the catalog.
    pub fn bind_base_table_ref(&self, table_name: String, alias: Option<String>) -> (res: Result<BoundBaseTableRef, BinderError>)
        requires
            self.catalog.wf(),
        ensures
            match res {
                Ok(b) => base_binds(*self.catalog, table_name, alias, b),
                Err(e) => base_fails(*self.catalog, table_name, e),
            },
    {
        match self.catalog.get_tbl_by_name(table_name.as_str()) {
            Ok(info) => {
                let oid = info.table_oid();
                let schema = info.schema();
                Ok(BoundBaseTableRef::new(table_name, oid, alias, schema))
            },
            Err(e) => Err(BinderError::Catalog(e)),
        }
    }

    /// Binds a FROM clause.
    pub fn bind_table_ref(&self, table_ref: ParsedTableRef) -> (res: Result<BoundTableRef, BinderError>)
        requires
            self.catalog.wf(),
        ensures
            match res {
                Ok(b) => binds_table(*self.catalog, table_ref, b),
                Err(e) => table_fails(*self.catalog, table_ref, e),
            },
        decreases table_ref,
    {
        match table_ref {
            ParsedTableRef::BaseTable { table_name, alias } => {
                let b = self.bind_base_table_ref(table_name, alias)?;
                Ok(BoundTableRef::BaseTable(b))
            },
            ParsedTableRef::Join { left, right, join_type, condition } => {
                let ghost pl = *left;
                let ghost pr = *right;
                let l = self.bind_table_ref(*left)?;
                let r = match self.bind_table_ref(*right) {
                    Ok(r) => r,
                    Err(e) => {
                        assert(binds_table(*self.catalog, pl, l));
                        return Err(e);
                    },
                };
                let ghost scope = ScopeView::Tables(base_tables_of(l) + base_tables_of(r));
                let cond = match condition {
                    Some(expr) => {
                        let context = BindContext::table_ref_pair_scope(&l, &r);
                        match self.bind_expression(expr, &context) {
                            Ok(c) => Some(c),
                            Err(e) => {
                                assert(binds_table(*self.catalog, pl, l) && binds_table(*self.catalog, pr, r));
                                return Err(e);
                            },
                        }
                    },
                    None => None,
                };
                Ok(BoundTableRef::Join(BoundJoin::new(l, r, join_type, cond)))
            },
        }
    }

    /// Binds a select list in the scope of `context`.
    pub fn bind_select_list(&self, items: Vec<SelectItem>, context: &BindContext) -> (res: Result<Vec<BoundExpression>, BinderError>)
        requires
            !(scope_of(*context) is ExprList),
        ensures
            agrees_vec(res, bind_select_items(items@, scope_of(*context))),
    {
        let ghost es = items@;
        let ghost sc = scope_of(*context);
        let mut res: Vec<BoundExpression> = Vec::new();
        let mut failure: Option<BinderError> = None;
        let mut rest = items;
        let n: usize = rest.len();
        let mut i: usize = 0;
        while rest.len() > 0 && failure.is_none()
            invariant
                i + rest@.len() == es.len(),
                n == es.len(),
                sc == scope_of(*context),
                !(sc is ExprList),
                rest@ == es.subrange(index_of(i), es.len() as int),
                failure is None ==> bind_items(es, sc, index_of(i)) == Ok::<Seq<BoundExpression>, BindFailure>(res@),
                failure is Some ==> fails_with(failure->0, bind_items(es, sc, es.len() as int)),
            decreases rest@.len(),
        {
            let item = rest.remove(0);
            assert(item == es[index_of(i)]);
            let step: Result<(), BinderError> = match item {
                SelectItem::Wildcard => {
                    match Self::get_all_cols_from_scope(context) {
                        Ok(mut cols) => {
                            let ghost before = res@;
                            let ghost added = cols@;
                            res.append(&mut cols);
                            assert(res@ == before + added);
                            Ok(())
                        },
                        Err(e) => Err(e),
                    }
                },
                SelectItem::Expression(e) => {
                    match self.bind_expression(e, context) {
                        Ok(b) => {
                            res.push(b);
                            Ok(())
                        },
                        Err(e) => Err(e),
                    }
                },
            };
            if let Err(e) = step {
                proof { lemma_items_err_sticks(es, sc, index_of(i) + 1, es.len() as int); }
                failure = Some(e);
            }
            i = i + 1;
            assert(rest@ =~= es.subrange(index_of(i), es.len() as int));
        }
        if let Some(e) = failure {
            return Err(e);
        }
        assert(es.subrange(index_of(i), es.len() as int).len() == 0);
        if res.len() == 0 {
            return Err(BinderError::EmptySelectProjection);
        }
        Ok(res)
    }

    /// Binds a SELECT: its FROM clause, then its select list and WHERE
    /// clause in the scope of the FROM clause.
    pub fn bind_select(&self, stmt: SelectStatement) -> (res: Result<BoundSelect, BinderError>)
        requires
            self.catalog.wf(),
        ensures
            match res {
                Ok(s) => select_binds(*self.catalog, stmt, s),
                Err(e) => select_fails(*self.catalog, stmt, e),
            },
    {
        let ghost st = stmt;
        let SelectStatement { table, projection, where_clause } = stmt;
        let tbl_ref = self.bind_table_ref(table)?;
        proof { lemma_bound_table_not_list(*self.catalog, st.table, tbl_ref); }
        let (proj, where_) = {
            let context = BindContext::table_ref_scope(&tbl_ref);
            assert(scope_of(context) == table_scope(tbl_ref));
            let p = match self.bind_select_list(projection, &context) {
                Ok(p) => p,
                Err(e) => {
                    assert(binds_table(*self.catalog, st.table, tbl_ref));
                    return Err(e);
                },
            };
            let w = match where_clause {
                None => None,
                Some(w) => match self.bind_expression(w, &context) {
                    Ok(b) => Some(b),
                    Err(e) => {
                        assert(binds_table(*self.catalog, st.table, tbl_ref));
                        return Err(e);
                    },
                },
            };
            (p, w)
        };
        Ok(BoundSelect { table: tbl_ref, projection: proj, where_ })
    }

    /// Binds an UPDATE: the table, each assignment's target column and
    /// value, and the WHERE clause, in the table's scope.
    pub fn bind_update(&self, stmt: UpdateStatement) -> (res: Result<BoundStatement, BinderError>)
        requires
            self.catalog.wf(),
        ensures
            match res {
                Ok(BoundStatement::Update(u)) => update_binds(*self.catalog, stmt, u),
                Ok(_) => false,
                Err(e) => update_fails(*self.catalog, stmt, e),
            },
    {
        let ghost st = stmt;
        let UpdateStatement { table_name, assignments, where_clause } = stmt;
        let table = self.bind_base_table_ref(table_name, None)?;
        let ghost asg = assignments@;
        let ghost t = table;
        let (target_exprs, filter_expr) = {
            let context = BindContext::base_table_scope(&table);
            let mut targets: Vec<(ColumnRef, BoundExpression)> = Vec::new();
            let mut failure: Option<BinderError> = None;
            let mut rest = assignments;
            let n: usize = rest.len();
            let mut i: usize = 0;
            while rest.len() > 0 && failure.is_none()
                invariant
                    i + rest@.len() == asg.len(),
                    n == asg.len(),
                    scope_of(context) == ScopeView::Tables(seq![t]),
                    table == t,
                    rest@ == asg.subrange(index_of(i), asg.len() as int),
                    failure is None ==> bind_assignments(asg, t, index_of(i)) == Ok::<Seq<(ColumnRef, BoundExpression)>, BindFailure>(targets@),
                    failure is Some ==> fails_with(failure->0, bind_assignments(asg, t, asg.len() as int)),
                decreases rest@.len(),
            {
                let (col_name, expr) = rest.remove(0);
                assert((col_name, expr) == asg[index_of(i)]);
                match Self::resolve_column_ref_from_base_table_ref(&table, col_name) {
                    Ok(col_ref) => {
                        match self.bind_expression(expr, &context) {
                            Ok(bound) => targets.push((col_ref, bound)),
                            Err(e) => {
                                proof { lemma_assignments_err_sticks(asg, t, index_of(i) + 1, asg.len() as int); }
                                failure = Some(e);
                            },
                        }
                    },
                    Err(e) => {
                        proof { lemma_assignments_err_sticks(asg, t, index_of(i) + 1, asg.len() as int); }
                        failure = Some(e);
                    },
                }
                i = i + 1;
                assert(rest@ =~= asg.subrange(index_of(i), asg.len() as int));
            }
            if let Some(e) = failure {
                assert(base_binds(*self.catalog, st.table_name, None, t));
                return Err(e);
            }
            let f = match where_clause {
                None => None,
                Some(w) => match self.bind_expression(w, &context) {
                    Ok(b) => Some(b),
                    Err(e) => {
                        assert(base_binds(*self.catalog, st.table_name, None, t));
                        return Err(e);
                    },
                },
            };
            (targets, f)
        };
        Ok(BoundStatement::Update(BoundUpdate { table, filter_expr, target_exprs }))
    }

    /// Binds a DELETE: the table and the WHERE clause in its scope.
    pub fn bind_delete(&self, stmt: DeleteStatement) -> (res: Result<BoundStatement, BinderError>)
        requires
            self.catalog.wf(),
        ensures
            match res {
                Ok(BoundStatement::Delete(d)) => delete_binds(*self.catalog, stmt, d),
                Ok(_) => false,
                Err(e) => delete_fails(*self.catalog, stmt, e),
            },
    {
        let ghost st = stmt;
        let DeleteStatement { table_name, where_clause } = stmt;
        let table = self.bind_base_table_ref(table_name, None)?;
        let filter_expr = {
            let context = BindContext::base_table_scope(&table);
            match where_clause {
                None => None,
                Some(w) => match self.bind_expression(w, &context) {
                    Ok(b) => Some(b),
                    Err(e) => {
                        assert(base_binds(*self.catalog, st.table_name, None, table));
                        return Err(e);
                    },
                },
            }
        };
        Ok(BoundStatement::Delete(BoundDelete { table, filter_expr }))
    }

    /// Every column of a schema, unqualified, in order.
    pub fn bind_columns_from_schema(schema: &crate::catalog::schema::Schema) -> (res: Vec<ColumnRef>)
        ensures
            res@ == schema.columns@.map_values(|c: Column| ColumnRef::Unqualified { column: c.name }),
    {
        let mut res: Vec<ColumnRef> = Vec::new();
        let mut i: usize = 0;
        while i < schema.columns.len()
            invariant
                i <= schema.columns@.len(),
                res@ == schema.columns@.subrange(0, index_of(i)).map_values(|c: Column| ColumnRef::Unqualified { column: c.name }),
            decreases schema.columns@.len() - i,
        {
            res.push(ColumnRef::Unqualified { column: schema.columns[i].name.clone() });
            i = i + 1;
            assert(schema.columns@.subrange(0, index_of(i)) =~= schema.columns@.subrange(0, index_of(i) - 1).push(schema.columns@[index_of(i) - 1]));
        }
        assert(schema.columns@.subrange(0, index_of(i)) =~= schema.columns@);
        res
    }

    /// Binds the rows of a VALUES list, each as long as the column list.
    pub fn bind_values_list(&self, num_cols: usize, rows: Vec<Vec<Expression>>) -> (res: Result<BoundExpressionListRef, BinderError>)
        ensures
            match res {
                Ok(l) => {
                    &&& l.identifier@ == unnamed()
                    &&& bind_values(rows_of(rows@), num_cols as nat) == Ok::<Seq<Seq<BoundExpression>>, BindFailure>(bound_rows_of(l.values@))
                },
                Err(e) => fails_with(e, bind_values(rows_of(rows@), num_cols as nat)),
            },
    {
        if rows.len() == 0 {
            return Err(BinderError::InsertValuesEmpty);
        }
        let ghost rs = rows_of(rows@);
        let context = BindContext::no_scope();
        let mut res: Vec<Vec<BoundExpression>> = Vec::new();
        assert(bound_rows_of(res@) =~= Seq::<Seq<BoundExpression>>::empty());
        let mut failure: Option<BinderError> = None;
        let mut rest = rows;
        assert(rows_of(rest@) =~= rs.subrange(0, rs.len() as int));
        let n: usize = rest.len();
        let mut i: usize = 0;
        while rest.len() > 0 && failure.is_none()
            invariant
                i + rest@.len() == rs.len(),
                n == rs.len(),
                scope_of(context) == ScopeView::NoScope,
                rows_of(rest@) == rs.subrange(index_of(i), rs.len() as int),
                failure is None ==> bind_rows(rs, num_cols as nat, index_of(i)) == Ok::<Seq<Seq<BoundExpression>>, BindFailure>(bound_rows_of(res@)),
                failure is Some ==> fails_with(failure->0, bind_rows(rs, num_cols as nat, rs.len() as int)),
            decreases rest@.len(),
        {
            let ghost before = rest@;
            let row = rest.remove(0);
            assert(row@ == rs[index_of(i)]) by {
                assert(rows_of(before)[0] == row@);
            }
            if row.len() != num_cols {
                proof { lemma_rows_err_sticks(rs, num_cols as nat, index_of(i) + 1, rs.len() as int); }
                failure = Some(BinderError::InsertValuesDoesntMatchColumns);
            } else {
                match self.bind_expr_list(row, &context) {
                    Ok(b) => {
                        let ghost prev = bound_rows_of(res@);
                        res.push(b);
                        assert(bound_rows_of(res@) =~= prev.push(b@));
                    },
                    Err(e) => {
                        proof { lemma_rows_err_sticks(rs, num_cols as nat, index_of(i) + 1, rs.len() as int); }
                        failure = Some(e);
                    },
                }
            }
            i = i + 1;
            assert(rows_of(rest@) =~= rs.subrange(index_of(i), rs.len() as int)) by {
                assert forall|k: int| 0 <= k < rest@.len() implies #[trigger] rows_of(rest@)[k] == rs[index_of(i) + k] by {
                    assert(rest@[k] == before[k + 1]);
                    assert(rows_of(before)[k + 1] == rs.subrange(index_of(i) - 1, rs.len() as int)[k + 1]);
                }
            }
        }
        if let Some(e) = failure {
            return Err(e);
        }
        proof { reveal_strlit("<unnamed>"); }
        Ok(BoundExpressionListRef::new("<unnamed>".to_string(), res))
    }

    /// Resolves the column names an INSERT lists, in order.
    pub fn resolve_insert_names(table: &BoundBaseTableRef, names: &Vec<String>) -> (res: Result<Vec<ColumnRef>, BinderError>)
        ensures
            seq_of(res) == resolve_names(names@, *table, names@.len() as int),
    {
        let mut refs: Vec<ColumnRef> = Vec::new();
        let mut i: usize = 0;
        while i < names.len()
            invariant
                i <= names@.len(),
                resolve_names(names@, *table, index_of(i)) == Ok::<Seq<ColumnRef>, BinderError>(refs@),
            decreases names@.len() - i,
        {
            match Self::resolve_column_ref_from_base_table_ref(table, names[i].clone()) {
                Ok(c) => refs.push(c),
                Err(e) => {
                    proof { lemma_names_err_sticks(names@, *table, index_of(i) + 1, names@.len() as int); }
                    return Err(e);
                },
            }
            i = i + 1;
        }
        Ok(refs)
    }

    /// Binds an INSERT: the table, the columns written and the rows or
    /// query that supply them.
    pub fn bind_insert(&self, stmt: InsertStatement) -> (res: Result<BoundStatement, BinderError>)
        requires
            self.catalog.wf(),
        ensures
            match res {
                Ok(BoundStatement::Insert(ins)) => insert_binds(*self.catalog, stmt, ins),
                Ok(_) => false,
                Err(e) => insert_fails(*self.catalog, stmt, e),
            },
    {
        proof { reveal_strlit("__"); }
        if str_starts_with(stmt.table_name.as_str(), "__") {
            return Err(BinderError::InvalidTableName(stmt.table_name));
        }
        let ghost st = stmt;
        let InsertStatement { table_name, columns, source } = stmt;
        let table = self.bind_base_table_ref(table_name, None)?;
        let ghost t = table;
        let cols: Vec<ColumnRef> = match columns {
            None => Self::bind_columns_from_schema(&table.schema),
            Some(names) => {
                let refs = match Self::resolve_insert_names(&table, &names) {
                    Ok(r) => r,
                    Err(e) => {
                        assert(base_binds(*self.catalog, st.table_name, None, t));
                        return Err(e);
                    },
                };
                if !are_column_refs_unique(refs.as_slice()) {
                    assert(base_binds(*self.catalog, st.table_name, None, t));
                    return Err(BinderError::DuplicateInsertColumns);
                }
                refs
            },
        };
        let num_columns = cols.len();
        let bound_source = match source {
            InsertSource::Values(values) => {
                match self.bind_values_list(num_columns, values) {
                    Ok(l) => BoundInsertSource::Values(l),
                    Err(e) => {
                        assert(base_binds(*self.catalog, st.table_name, None, t));
                        return Err(e);
                    },
                }
            },
            InsertSource::Select(select) => {
                match self.bind_select(select) {
                    Ok(b) => BoundInsertSource::Select(b),
                    Err(e) => {
                        assert(base_binds(*self.catalog, st.table_name, None, t));
                        return Err(e);
                    },
                }
            },
        };
        Ok(BoundStatement::Insert(BoundInsert { table, columns: cols, source: bound_source }))
    }

    /// Binds a CREATE TABLE: no column twice (ignoring case), at least one
    /// column, and a primary key of its columns.
    pub fn bind_create_tbl(&self, stmt: CreateTableStatement) -> (res: Result<BoundStatement, BinderError>)
        requires
            columns_valid(stmt.columns@),
        ensures
            match res {
                Ok(BoundStatement::CreateTable(c)) => {
                    &&& c.name == stmt.table_name
                    &&& create_table_result(stmt) == Ok::<(Seq<Column>, Seq<usize>), BinderError>((c.columns@, c.primary_key_col_idxs@))
                },
                Ok(_) => false,
                Err(e) => create_table_result(stmt) == Err::<(Seq<Column>, Seq<usize>), BinderError>(e),
            },
    {
        let ghost names = stmt.columns@.map_values(|c: CreateColumn| c.name@);
        let ghost bound = stmt.columns@.map_values(|c: CreateColumn| bound_column(c));
        let ghost cs = stmt.columns@;
        let CreateTableStatement { table_name, columns: defs, primary_key } = stmt;
        let mut seen: Vec<String> = Vec::new();
        let mut columns: Vec<Column> = Vec::new();
        let mut rest = defs;
        let n: usize = rest.len();
        let mut i: usize = 0;
        while rest.len() > 0
            invariant
                i + rest@.len() == cs.len(),
                n == cs.len(),
                cs == stmt.columns@,
                names == cs.map_values(|c: CreateColumn| c.name@),
                bound == cs.map_values(|c: CreateColumn| bound_column(c)),
                columns_valid(cs),
                rest@ == cs.subrange(index_of(i), cs.len() as int),
                first_repeat(names, index_of(i)) is None,
                seen@.len() == i,
                forall|k: int| 0 <= k < i ==> (#[trigger] seen@[k])@ == lowercase(names[k]),
                columns@ == bound.subrange(0, index_of(i)),
            decreases rest@.len(),
        {
            let column = rest.remove(0);
            assert(column == cs[index_of(i)]);
            let key = to_lowercase(column.name.as_str());
            let mut j: usize = 0;
            while j < seen.len()
                invariant
                    j <= seen@.len(),
                    seen@.len() == i,
                    i < cs.len(),
                    cs == stmt.columns@,
                    first_repeat(names, index_of(i)) is None,
                    names == cs.map_values(|c: CreateColumn| c.name@),
                    bound == cs.map_values(|c: CreateColumn| bound_column(c)),
                    column == cs[index_of(i)],
                    key@ == lowercase(column.name@),
                    forall|k: int| 0 <= k < i ==> (#[trigger] seen@[k])@ == lowercase(names[k]),
                    forall|k: int| 0 <= k < j ==> !same_name(#[trigger] names[k], names[index_of(i)]),
                decreases seen@.len() - j,
            {
                if str_eq(seen[j].as_str(), key.as_str()) {
                    proof {
                        assert(same_name(names[index_of(j)], names[index_of(i)]));
                        assert(repeats_earlier(names, index_of(i)));
                        lemma_repeat_found(names, index_of(i), cs.len() as int);
                    }
                    return Err(BinderError::DuplicateColumn(column.name));
                }
                j = j + 1;
            }
            assert(!repeats_earlier(names, index_of(i)));
            seen.push(key);
            let col = bind_create_column(column);
            columns.push(col);
            i = i + 1;
            assert(rest@ =~= cs.subrange(index_of(i), cs.len() as int));
            assert(columns@ =~= bound.subrange(0, index_of(i)));
        }
        assert(bound.subrange(0, index_of(i)) =~= bound);
        if columns.len() == 0 {
            return Err(BinderError::CreateTableWithoutColumns);
        }
        let primary_key_col_idxs = resolve_primary_key_col_idxs(&primary_key, &columns)?;
        Ok(BoundStatement::CreateTable(BoundCreateTable { name: table_name, columns, primary_key_col_idxs }))
    }

    /// The columns `*` stands for in the scope of `context`.
    pub fn get_all_cols_from_scope(context: &BindContext) -> (res: Result<Vec<BoundExpression>, BinderError>)
        requires
            !(scope_of(*context) is ExprList),
        ensures
            agrees_vec(res, wildcard_of(scope_of(*context))),
    {
        match &context.scope {
            None => {
                proof { reveal_strlit("select * without table scope"); }
                Err(BinderError::UnsupportedExpression("select * without table scope".to_string()))
            },
            Some(BindScope::Tables(tables)) => {
                let ghost ts = tables@.map_values(|t: &BoundBaseTableRef| *t);
                let mut res: Vec<BoundExpression> = Vec::new();
                let mut i: usize = 0;
                while i < tables.len()
                    invariant
                        i <= tables@.len(),
                        ts == tables@.map_values(|t: &BoundBaseTableRef| *t),
                        res@ == wildcard_columns(ts.subrange(0, index_of(i))),
                    decreases tables@.len() - i,
                {
                    let table = tables[i];
                    let ghost before = res@;
                    let mut j: usize = 0;
                    while j < table.schema.columns.len()
                        invariant
                            j <= table.schema.columns@.len(),
                            res@ == before + table.schema.columns@.subrange(0, index_of(j)).map_values(
                                |c: Column| BoundExpression::Column(ColumnRef::TableQualified { table: bound_name(*table), column: c.name }),
                            ),
                        decreases table.schema.columns@.len() - j,
                    {
                        let col = &table.schema.columns[j];
                        res.push(BoundExpression::Column(ColumnRef::TableQualified {
                            table: bound_name_string(table),
                            column: col.name.clone(),
                        }));
                        j = j + 1;
                        assert(table.schema.columns@.subrange(0, index_of(j)) =~= table.schema.columns@.subrange(0, index_of(j) - 1).push(*col));
                    }
                    assert(ts.subrange(0, index_of(i) + 1).drop_last() =~= ts.subrange(0, index_of(i)));
                    assert(table.schema.columns@.subrange(0, index_of(j)) =~= table.schema.columns@);
                    i = i + 1;
                }
                assert(ts.subrange(0, index_of(i)) =~= ts);
                Ok(res)
            },
            Some(BindScope::ExprList(_)) => {
                assert(false);
                Err(BinderError::EmptySelectProjection)
            },
        }
    }
}

} // verus!
