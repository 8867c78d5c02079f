use vstd::prelude::*;
use crate::catalog::catalog::Catalog;
use crate::catalog::column::{Column, ColumnSize};
use crate::catalog::schema::Schema;
use crate::catalog::types::{SqlType, spec_inline_size};
use crate::common::strings::{concat3, lowercase, str_eq, to_lowercase};
use crate::query::binder::error::BinderError;
use crate::query::binder::expression::{BoundExpression, ColumnRef, are_column_refs_unique, refs_unique};
use crate::query::binder::statement::{
    BoundCreateTable, BoundDelete, BoundInsert, BoundInsertSource, BoundSelect, BoundStatement,
    BoundUpdate,
};
use crate::query::binder::table_ref::{
    BoundBaseTableRef, BoundExpressionListRef, BoundJoin, BoundTableRef, base_tables_of, bound_name,
};
use crate::query::expression::{ColumnQualifier, Expression, ParsedColumnRef};
use crate::query::statement::{
    CreateColumn, CreateTableStatement, DeleteStatement, InsertSource, InsertStatement, SelectItem,
    SelectStatement, Statement, UpdateStatement,
};
use crate::query::table_ref::TableRef as ParsedTableRef;

verus! {

// ---------------------------------------------------------------------
// What binding means
// ---------------------------------------------------------------------

/// Why binding failed: a binder error, or an unsupported expression with
/// this message.
pub enum BindFailure {
    Error(BinderError),
    Message(Seq<char>),
}

/// An outcome of the binder agrees with what binding means.
pub open spec fn agrees<T>(res: Result<T, BinderError>, s: Result<T, BindFailure>) -> bool {
    match (res, s) {
        (Ok(a), Ok(b)) => a == b,
        (Err(e), Err(BindFailure::Error(f))) => e == f,
        (Err(BinderError::UnsupportedExpression(m)), Err(BindFailure::Message(t))) => m@ == t,
        _ => false,
    }
}

/// An outcome holding a vector agrees with an outcome holding a sequence.
pub open spec fn agrees_vec<T>(res: Result<Vec<T>, BinderError>, s: Result<Seq<T>, BindFailure>) -> bool {
    match (res, s) {
        (Ok(a), Ok(b)) => a@ == b,
        (Err(e), Err(BindFailure::Error(f))) => e == f,
        (Err(BinderError::UnsupportedExpression(m)), Err(BindFailure::Message(t))) => m@ == t,
        _ => false,
    }
}

/// The names that can be referred to from an expression.
pub enum ScopeView {
    NoScope,
    Tables(Seq<BoundBaseTableRef>),
    ExprList,
}

pub open spec fn same_name(a: Seq<char>, b: Seq<char>) -> bool {
    lowercase(a) == lowercase(b)
}

/// Looking up `name` among the first `n` columns, ignoring case: no match,
/// one match, or an ambiguity.
pub open spec fn resolve_in_columns(cols: Seq<Column>, name: String, n: int) -> Result<Option<ColumnRef>, BinderError>
    decreases n,
{
    if n <= 0 {
        Ok(None)
    } else {
        match resolve_in_columns(cols, name, n - 1) {
            Err(e) => Err(e),
            Ok(prev) => if same_name(cols[n - 1].name@, name@) {
                if prev is Some {
                    Err(BinderError::AmbiguousColumn(name))
                } else {
                    Ok(Some(ColumnRef::Unqualified { column: cols[n - 1].name }))
                }
            } else {
                Ok(prev)
            },
        }
    }
}

pub open spec fn resolve_in_schema(s: Schema, name: String) -> Result<Option<ColumnRef>, BinderError> {
    resolve_in_columns(s.columns@, name, s.columns@.len() as int)
}

/// Looking up `name` in one table: the column qualified by the table's
/// bound name.
pub open spec fn resolve_in_table(t: BoundBaseTableRef, name: String) -> Result<ColumnRef, BinderError> {
    match resolve_in_schema(t.schema, name) {
        Err(e) => Err(e),
        Ok(None) => Err(BinderError::ColumnNotFound(name)),
        Ok(Some(ColumnRef::Unqualified { column })) => Ok(ColumnRef::TableQualified { table: bound_name(t), column }),
        Ok(Some(c)) => Ok(c),
    }
}

/// Looking up an unqualified `name` in the first `n` tables: it must be a
/// column of exactly one of them.
pub open spec fn resolve_in_tables(ts: Seq<BoundBaseTableRef>, name: String, n: int) -> Result<Option<ColumnRef>, BinderError>
    decreases n,
{
    if n <= 0 {
        Ok(None)
    } else {
        match resolve_in_tables(ts, name, n - 1) {
            Err(e) => Err(e),
            Ok(prev) => match resolve_in_schema(ts[n - 1].schema, name) {
                Err(e) => Err(e),
                Ok(None) => Ok(prev),
                Ok(Some(ColumnRef::Unqualified { column })) => if prev is Some {
                    Err(BinderError::AmbiguousColumn(name))
                } else {
                    Ok(Some(ColumnRef::TableQualified { table: bound_name(ts[n - 1]), column }))
                },
                Ok(Some(c)) => Ok(prev),
            },
        }
    }
}

/// The first table whose bound name is `q`.
pub open spec fn table_bound_as(ts: Seq<BoundBaseTableRef>, q: Seq<char>) -> Option<int> {
    if exists|i: int| 0 <= i < ts.len() && bound_name(#[trigger] ts[i])@ == q {
        Some(choose|i: int| 0 <= i < ts.len() && bound_name(#[trigger] ts[i])@ == q
            && forall|j: int| 0 <= j < i ==> bound_name(#[trigger] ts[j])@ != q)
    } else {
        None
    }
}

pub open spec fn schema_qualified_message() -> Seq<char> {
    "schema-qualified column references are not supported"@
}

pub open spec fn resolve_column(ts: Seq<BoundBaseTableRef>, c: ParsedColumnRef) -> Result<ColumnRef, BindFailure> {
    match c.qualifier {
        None => match resolve_in_tables(ts, c.column, ts.len() as int) {
            Err(e) => Err(BindFailure::Error(e)),
            Ok(None) => Err(BindFailure::Error(BinderError::ColumnNotFound(c.column))),
            Ok(Some(r)) => Ok(r),
        },
        Some(ColumnQualifier::Table { table }) => match table_bound_as(ts, table@) {
            None => Err(BindFailure::Error(BinderError::MissingFromClauseEntry(table))),
            Some(i) => match resolve_in_table(ts[i], c.column) {
                Err(e) => Err(BindFailure::Error(e)),
                Ok(r) => Ok(r),
            },
        },
        Some(ColumnQualifier::SchemaTable { .. }) => Err(BindFailure::Message(schema_qualified_message())),
    }
}

pub open spec fn no_scope_message(column: Seq<char>) -> Seq<char> {
    "column reference `"@ + column + "` without table scope"@
}

pub open spec fn expr_list_message(column: Seq<char>) -> Seq<char> {
    "column reference `"@ + column + "` in expression list scope"@
}

/// Binding an expression: literals stay, column references are resolved in
/// the scope, operands are bound left to right.
pub open spec fn bind_expr(e: Expression, scope: ScopeView) -> Result<BoundExpression, BindFailure>
    decreases e,
{
    match e {
        Expression::Literal(v) => Ok(BoundExpression::Literal(v)),
        Expression::Column(c) => match scope {
            ScopeView::Tables(ts) => match resolve_column(ts, c) {
                Err(f) => Err(f),
                Ok(r) => Ok(BoundExpression::Column(r)),
            },
            ScopeView::ExprList => Err(BindFailure::Message(expr_list_message(c.column@))),
            ScopeView::NoScope => Err(BindFailure::Message(no_scope_message(c.column@))),
        },
        Expression::UnaryOp { op, expr } => match bind_expr(*expr, scope) {
            Err(f) => Err(f),
            Ok(b) => Ok(BoundExpression::UnaryOp { expr: Box::new(b), op }),
        },
        Expression::BinaryOp { left, op, right } => match bind_expr(*left, scope) {
            Err(f) => Err(f),
            Ok(l) => match bind_expr(*right, scope) {
                Err(f) => Err(f),
                Ok(r) => Ok(BoundExpression::BinaryOp { left: Box::new(l), op, right: Box::new(r) }),
            },
        },
    }
}

/// Binding a list of expressions, stopping at the first failure.
pub open spec fn bind_exprs(es: Seq<Expression>, scope: ScopeView, n: int) -> Result<Seq<BoundExpression>, BindFailure>
    decreases n,
{
    if n <= 0 {
        Ok(Seq::empty())
    } else {
        match bind_exprs(es, scope, n - 1) {
            Err(f) => Err(f),
            Ok(prev) => match bind_expr(es[n - 1], scope) {
                Err(f) => Err(f),
                Ok(b) => Ok(prev.push(b)),
            },
        }
    }
}

/// `SELECT *` over these tables: every column of every table, qualified by
/// the table's bound name.
pub open spec fn wildcard_columns(ts: Seq<BoundBaseTableRef>) -> Seq<BoundExpression>
    decreases ts.len(),
{
    if ts.len() == 0 {
        Seq::empty()
    } else {
        wildcard_columns(ts.drop_last()) + ts.last().schema.columns@.map_values(
            |c: Column| BoundExpression::Column(ColumnRef::TableQualified { table: bound_name(ts.last()), column: c.name }),
        )
    }
}

proof fn lemma_columns_err_sticks(cols: Seq<Column>, name: String, k: int, n: int)
    requires
        0 <= k <= n,
        resolve_in_columns(cols, name, k) is Err,
    ensures
        resolve_in_columns(cols, name, n) == resolve_in_columns(cols, name, k),
    decreases n - k,
{
    if k < n {
        lemma_columns_err_sticks(cols, name, k, n - 1);
    }
}

proof fn lemma_tables_err_sticks(ts: Seq<BoundBaseTableRef>, name: String, k: int, n: int)
    requires
        0 <= k <= n,
        resolve_in_tables(ts, name, k) is Err,
    ensures
        resolve_in_tables(ts, name, n) == resolve_in_tables(ts, name, k),
    decreases n - k,
{
    if k < n {
        lemma_tables_err_sticks(ts, name, k, n - 1);
    }
}

proof fn lemma_exprs_err_sticks(es: Seq<Expression>, scope: ScopeView, k: int, n: int)
    requires
        0 <= k <= n,
        bind_exprs(es, scope, k) is Err,
    ensures
        bind_exprs(es, scope, n) == bind_exprs(es, scope, k),
    decreases n - k,
{
    if k < n {
        lemma_exprs_err_sticks(es, scope, k, n - 1);
    }
}

proof fn lemma_first_bound(ts: Seq<BoundBaseTableRef>, q: Seq<char>, i: int)
    requires
        0 <= i < ts.len(),
        bound_name(ts[i])@ == q,
        forall|j: int| 0 <= j < i ==> bound_name(#[trigger] ts[j])@ != q,
    ensures
        table_bound_as(ts, q) == Some(i),
{
    assert(bound_name(ts[i])@ == q);
    let c = choose|k: int| 0 <= k < ts.len() && bound_name(#[trigger] ts[k])@ == q
        && forall|j: int| 0 <= j < k ==> bound_name(#[trigger] ts[j])@ != q;
    if c < i {
        assert(bound_name(ts[c])@ != q);
    } else if c > i {
        assert(bound_name(ts[i])@ != q);
    }
}

pub open spec fn scope_of(ctx: BindContext) -> ScopeView {
    match ctx.scope {
        None => ScopeView::NoScope,
        Some(BindScope::Tables(ts)) => ScopeView::Tables(ts@.map_values(|t: &BoundBaseTableRef| *t)),
        Some(BindScope::ExprList(_)) => ScopeView::ExprList,
    }
}

// ---------------------------------------------------------------------
// The binder
// ---------------------------------------------------------------------

/// Resolves the names of a statement against the catalog.
pub struct Binder<'a> {
    pub catalog: &'a Catalog,
}

pub struct BindContext<'a> {
    pub scope: Option<BindScope<'a>>,
}

pub enum BindScope<'a> {
    Tables(Vec<&'a BoundBaseTableRef>),
    ExprList(&'a BoundExpressionListRef),
}

impl<'a> BindContext<'a> {
    pub fn no_scope() -> (res: Self)
        ensures
            scope_of(res) == ScopeView::NoScope,
    {
        BindContext { scope: None }
    }

    pub fn base_table_scope(table: &'a BoundBaseTableRef) -> (res: Self)
        ensures
            scope_of(res) == ScopeView::Tables(seq![*table]),
    {
        let mut v: Vec<&'a BoundBaseTableRef> = Vec::new();
        v.push(table);
        let res = BindContext { scope: Some(BindScope::Tables(v)) };
        assert(v@.map_values(|t: &BoundBaseTableRef| *t) =~= seq![*table]);
        res
    }

    pub fn table_ref_scope(table: &'a BoundTableRef) -> (res: Self)
        ensures
            table is ExprList ==> scope_of(res) == ScopeView::ExprList,
            !(table is ExprList) ==> scope_of(res) == ScopeView::Tables(base_tables_of(*table)),
    {
        match table {
            BoundTableRef::ExprList(expr_list) => BindContext { scope: Some(BindScope::ExprList(expr_list)) },
            _ => {
                let v = table.base_tables();
                assert(v@.map_values(|t: &BoundBaseTableRef| *t) =~= base_tables_of(*table));
                BindContext { scope: Some(BindScope::Tables(v)) }
            },
        }
    }

    pub fn table_ref_pair_scope(left: &'a BoundTableRef, right: &'a BoundTableRef) -> (res: Self)
        ensures
            scope_of(res) == ScopeView::Tables(base_tables_of(*left) + base_tables_of(*right)),
    {
        let mut tables = left.base_tables();
        let r = right.base_tables();
        let ghost n = tables@.len();
        let mut i: usize = 0;
        while i < r.len()
            invariant
                i <= r@.len(),
                tables@.len() == n + i,
                n == base_tables_of(*left).len(),
                r@.len() == base_tables_of(*right).len(),
                forall|k: int| 0 <= k < n ==> *#[trigger] tables@[k] == base_tables_of(*left)[k],
                forall|k: int| 0 <= k < r@.len() ==> *#[trigger] r@[k] == base_tables_of(*right)[k],
                forall|k: int| n <= k < n + i ==> *#[trigger] tables@[k] == base_tables_of(*right)[k - n],
            decreases r@.len() - i,
        {
            tables.push(r[i]);
            i = i + 1;
        }
        assert(tables@.map_values(|t: &BoundBaseTableRef| *t) =~= base_tables_of(*left) + base_tables_of(*right));
        BindContext { scope: Some(BindScope::Tables(tables)) }
    }
}

/// The bound name of a table, as an owned string.
pub fn bound_name_string(t: &BoundBaseTableRef) -> (res: String)
    ensures
        res == bound_name(*t),
{
    match &t.alias {
        Some(a) => a.clone(),
        None => t.table_name.clone(),
    }
}

impl<'a> Binder<'a> {
    pub fn new(catalog: &'a Catalog) -> (res: Self)
        ensures
            res.catalog == catalog,
    {
        Binder { catalog }
    }

    /// Looks `col_name` up among the columns of `schema`, ignoring case.
    pub fn resolve_column_ref_schema(schema: &Schema, col_name: &String) -> (res: Result<Option<ColumnRef>, BinderError>)
        ensures
            res == resolve_in_schema(*schema, *col_name),
    {
        let key = to_lowercase(col_name.as_str());
        let mut res: Option<ColumnRef> = None;
        let mut i: usize = 0;
        while i < schema.columns.len()
            invariant
                i <= schema.columns@.len(),
                key@ == lowercase(col_name@),
                resolve_in_columns(schema.columns@, *col_name, i as int) == Ok::<Option<ColumnRef>, BinderError>(res),
            decreases schema.columns@.len() - i,
        {
            let name = to_lowercase(schema.columns[i].name.as_str());
            if str_eq(name.as_str(), key.as_str()) {
                if res.is_some() {
                    proof { lemma_columns_err_sticks(schema.columns@, *col_name, i + 1, schema.columns@.len() as int); }
                    return Err(BinderError::AmbiguousColumn(col_name.clone()));
                }
                res = Some(ColumnRef::Unqualified { column: schema.columns[i].name.clone() });
            }
            i = i + 1;
        }
        Ok(res)
    }

    /// Looks `col_name` up in one table, qualifying it by the table's bound
    /// name.
    pub fn resolve_column_ref_from_base_table_ref(base_table_ref: &BoundBaseTableRef, col_name: String) -> (res: Result<ColumnRef, BinderError>)
        ensures
            res == resolve_in_table(*base_table_ref, col_name),
    {
        match Self::resolve_column_ref_schema(&base_table_ref.schema, &col_name)? {
            None => Err(BinderError::ColumnNotFound(col_name)),
            Some(ColumnRef::Unqualified { column }) => Ok(ColumnRef::TableQualified { table: bound_name_string(base_table_ref), column }),
            Some(c) => Ok(c),
        }
    }

    /// Looks an unqualified `col_name` up in all the tables in scope.
    pub fn resolve_unqualified_column_ref_from_tables(tables: &Vec<&BoundBaseTableRef>, col_name: String) -> (res: Result<ColumnRef, BinderError>)
        ensures
            res == (match resolve_in_tables(tables@.map_values(|t: &BoundBaseTableRef| *t), col_name, tables@.len() as int) {
                Err(e) => Err(e),
                Ok(None) => Err(BinderError::ColumnNotFound(col_name)),
                Ok(Some(r)) => Ok(r),
            }),
    {
        let ghost ts = tables@.map_values(|t: &BoundBaseTableRef| *t);
        let mut resolved: Option<ColumnRef> = None;
        let mut i: usize = 0;
        while i < tables.len()
            invariant
                i <= tables@.len(),
                ts == tables@.map_values(|t: &BoundBaseTableRef| *t),
                resolve_in_tables(ts, col_name, i as int) == Ok::<Option<ColumnRef>, BinderError>(resolved),
            decreases tables@.len() - i,
        {
            let table = tables[i];
            assert(ts[i as int] == *table);
            let found = Self::resolve_column_ref_schema(&table.schema, &col_name);
            if found.is_err() {
                proof { lemma_tables_err_sticks(ts, col_name, i + 1, tables@.len() as int); }
            }
            match found? {
                None => {},
                Some(ColumnRef::Unqualified { column }) => {
                    if resolved.is_some() {
                        proof { lemma_tables_err_sticks(ts, col_name, i + 1, tables@.len() as int); }
                        return Err(BinderError::AmbiguousColumn(col_name));
                    }
                    resolved = Some(ColumnRef::TableQualified { table: bound_name_string(table), column });
                },
                Some(_) => {},
            }
            i = i + 1;
        }
        match resolved {
            Some(r) => Ok(r),
            None => Err(BinderError::ColumnNotFound(col_name)),
        }
    }

    /// Resolves a column reference among the tables in scope.
    pub fn resolve_column_ref_from_tables(tables: &Vec<&BoundBaseTableRef>, column: ParsedColumnRef) -> (res: Result<ColumnRef, BinderError>)
        ensures
            agrees(res, resolve_column(tables@.map_values(|t: &BoundBaseTableRef| *t), column)),
    {
        let ghost ts = tables@.map_values(|t: &BoundBaseTableRef| *t);
        let ParsedColumnRef { qualifier, column: col_name } = column;
        match qualifier {
            None => Self::resolve_unqualified_column_ref_from_tables(tables, col_name),
            Some(ColumnQualifier::Table { table: qualifier }) => {
                let mut i: usize = 0;
                while i < tables.len()
                    invariant
                        i <= tables@.len(),
                        ts == tables@.map_values(|t: &BoundBaseTableRef| *t),
                        column.qualifier == Some(ColumnQualifier::Table { table: qualifier }),
                        column.column == col_name,
                        forall|j: int| 0 <= j < i ==> bound_name(#[trigger] ts[j])@ != qualifier@,
                    decreases tables@.len() - i,
                {
                    let name = bound_name_string(tables[i]);
                    assert(ts[i as int] == *tables@[i as int]);
                    if str_eq(name.as_str(), qualifier.as_str()) {
                        proof { lemma_first_bound(ts, qualifier@, i as int); }
                        let r = Self::resolve_column_ref_from_base_table_ref(tables[i], col_name);
                        proof {
                            let q = Some(ColumnQualifier::Table { table: qualifier });
                            assert(column.qualifier == q);
                            match resolve_in_table(ts[i as int], col_name) {
                                Err(e) => assert(resolve_column(ts, column) == Err::<ColumnRef, BindFailure>(BindFailure::Error(e))),
                                Ok(c) => assert(resolve_column(ts, column) == Ok::<ColumnRef, BindFailure>(c)),
                            }
                        }
                        return r;
                    }
                    i = i + 1;
                }
                Err(BinderError::MissingFromClauseEntry(qualifier))
            },
            Some(ColumnQualifier::SchemaTable { .. }) => {
                proof { reveal_strlit("schema-qualified column references are not supported"); }
                Err(BinderError::UnsupportedExpression(
                    "schema-qualified column references are not supported".to_string(),
                ))
            },
        }
    }

    /// Resolves a column reference in the scope of `context`.
    pub fn bind_column_ref(&self, column: ParsedColumnRef, context: &BindContext) -> (res: Result<ColumnRef, BinderError>)
        ensures
            agrees(res, match bind_expr(Expression::Column(column), scope_of(*context)) {
                Err(f) => Err(f),
                Ok(BoundExpression::Column(r)) => Ok(r),
                Ok(_) => Err(BindFailure::Error(BinderError::EmptySelectProjection)),
            }),
    {
        match &context.scope {
            Some(BindScope::Tables(tables)) => Self::resolve_column_ref_from_tables(tables, column),
            Some(BindScope::ExprList(_)) => {
                proof {
                    reveal_strlit("column reference `");
                    reveal_strlit("` in expression list scope");
                }
                Err(BinderError::UnsupportedExpression(
                    concat3("column reference `", column.column.as_str(), "` in expression list scope"),
                ))
            },
            None => {
                proof {
                    reveal_strlit("column reference `");
                    reveal_strlit("` without table scope");
                }
                Err(BinderError::UnsupportedExpression(
                    concat3("column reference `", column.column.as_str(), "` without table scope"),
                ))
            },
        }
    }

    /// Binds an expression in the scope of `context`.
    pub fn bind_expression(&self, expr: Expression, context: &BindContext) -> (res: Result<BoundExpression, BinderError>)
        ensures
            agrees(res, bind_expr(expr, scope_of(*context))),
        decreases expr,
    {
        match expr {
            Expression::Literal(value) => Ok(BoundExpression::Literal(value)),
            Expression::Column(c) => {
                let r = self.bind_column_ref(c, context)?;
                Ok(BoundExpression::Column(r))
            },
            Expression::UnaryOp { op, expr } => {
                let b = self.bind_expression(*expr, context)?;
                Ok(BoundExpression::UnaryOp { op, expr: Box::new(b) })
            },
            Expression::BinaryOp { left, op, right } => {
                let l = self.bind_expression(*left, context)?;
                let r = self.bind_expression(*right, context)?;
                Ok(BoundExpression::BinaryOp { left: Box::new(l), op, right: Box::new(r) })
            },
        }
    }

    /// Binds a list of expressions in the scope of `context`.
    #[verifier::rlimit(40)]
    pub fn bind_expr_list(&self, exprs: Vec<Expression>, context: &BindContext) -> (res: Result<Vec<BoundExpression>, BinderError>)
        ensures
            agrees_vec(res, bind_exprs(exprs@, scope_of(*context), exprs@.len() as int)),
    {
        let ghost es = exprs@;
        let ghost sc = scope_of(*context);
        let mut res: Vec<BoundExpression> = Vec::new();
        let mut failure: Option<BinderError> = None;
        let mut rest = exprs;
        let n: usize = rest.len();
        let mut i: usize = 0;
        while rest.len() > 0 && failure.is_none()
            invariant
                i + rest@.len() == es.len(),
                n == es.len(),
                sc == scope_of(*context),
                rest@ == es.subrange(i as int, es.len() as int),
                failure is None ==> bind_exprs(es, sc, i as int) == Ok::<Seq<BoundExpression>, BindFailure>(res@),
                failure is Some ==> agrees_vec(Err(failure->0), bind_exprs(es, sc, es.len() as int)),
            decreases rest@.len(),
        {
            let e = rest.remove(0);
            assert(e == es[i as int]);
            let b = self.bind_expression(e, context);
            match b {
                Ok(b) => res.push(b),
                Err(err) => {
                    proof {
                        match bind_expr(es[i as int], sc) {
                            Err(f) => {
                                assert(bind_exprs(es, sc, i + 1) == Err::<Seq<BoundExpression>, BindFailure>(f));
                            },
                            Ok(_) => { assert(false); },
                        }
                        lemma_exprs_err_sticks(es, sc, i + 1, es.len() as int);
                    }
                    failure = Some(err);
                },
            }
            i = i + 1;
            assert(rest@ =~= es.subrange(i as int, es.len() as int));
        }
        if let Some(err) = failure {
            return Err(err);
        }
        Ok(res)
    }
}

} // verus!
