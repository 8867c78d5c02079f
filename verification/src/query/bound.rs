use vstd::prelude::*;
use crate::catalog::catalog::Catalog;
use crate::catalog::column::{Column, ColumnSize};
use crate::catalog::types::SqlType;
use crate::query::binder::expression::{BoundExpression, ColumnRef, column_ref_text};
use crate::query::binder::statements::{bind_assignments, bind_items, bind_opt, bind_rows, resolve_names};
use crate::query::binder::table_ref::{BoundBaseTableRef, bound_name};
use crate::query::binder::transformer::{
    ScopeView, bind_expr, bind_exprs, resolve_column, resolve_in_columns, resolve_in_table,
    resolve_in_tables, table_bound_as, wildcard_columns,
};
use crate::query::expression::{ColumnQualifier, Expression};
use crate::query::planner::plan::scan_descs;
use crate::query::planner::transformer::{first_exact, matches_in, matches_in_cols, ref_column, refs_resolve};
use crate::query::statement::SelectItem;

verus! {

// ---------------------------------------------------------------------
// What the binder resolves, the planner finds
// ---------------------------------------------------------------------

/// A column reference to the column `k` of the table `t`, by its bound name.
pub open spec fn refers_to(t: BoundBaseTableRef, c: ColumnRef) -> bool {
    exists|k: int| 0 <= k < t.schema.columns@.len()
        && c == (ColumnRef::TableQualified { table: bound_name(t), column: #[trigger] t.schema.columns@[k].name })
}

/// Looking a name up among columns finds one of them.
pub proof fn lemma_resolved_column(cols: Seq<Column>, name: String, n: int)
    requires
        n <= cols.len(),
    ensures
        resolve_in_columns(cols, name, n) matches Ok(Some(c)) ==> exists|k: int| 0 <= k < n
            && c == (ColumnRef::Unqualified { column: #[trigger] cols[k].name }),
    decreases n,
{
    if n > 0 {
        lemma_resolved_column(cols, name, n - 1);
    }
}

/// Looking a column up in a table finds one of its columns.
pub proof fn lemma_resolved_in_table(t: BoundBaseTableRef, name: String)
    ensures
        resolve_in_table(t, name) matches Ok(c) ==> refers_to(t, c),
{
    lemma_resolved_column(t.schema.columns@, name, t.schema.columns@.len() as int);
    if let Ok(Some(c)) = crate::query::binder::transformer::resolve_in_schema(t.schema, name) {
        let k = choose|k: int| 0 <= k < t.schema.columns@.len()
            && c == (ColumnRef::Unqualified { column: #[trigger] t.schema.columns@[k].name });
        assert(t.schema.columns@[k].name == c->Unqualified_column);
    }
}

/// A name of a column of the scan's input is found there.
pub proof fn lemma_found_in_cols(cols: Seq<(Seq<char>, SqlType, ColumnSize)>, name: Seq<char>, k: int, n: int)
    requires
        0 <= k < n <= cols.len(),
        cols[k].0 == name,
    ensures
        matches_in_cols(cols, name, 0, n).len() >= 1,
    decreases n,
{
    if n - 1 > k {
        lemma_found_in_cols(cols, name, k, n - 1);
    }
}

/// A reference to a column of `t` resolves in a scan of `t`.
pub proof fn lemma_refers_resolves(t: BoundBaseTableRef, c: ColumnRef)
    requires
        refers_to(t, c),
    ensures
        matches_in(seq![scan_descs(t)], column_ref_text(c)).len() >= 1,
{
    let k = choose|k: int| 0 <= k < t.schema.columns@.len()
        && c == (ColumnRef::TableQualified { table: bound_name(t), column: #[trigger] t.schema.columns@[k].name });
    let sd = scan_descs(t);
    assert(sd[k].0 == column_ref_text(c));
    lemma_found_in_cols(sd, column_ref_text(c), k, sd.len() as int);
    assert(seq![sd][0] == sd);
}

/// A column reference bound in the scope of one table refers to it.
pub proof fn lemma_resolve_one_table(t: BoundBaseTableRef, c: crate::query::expression::ParsedColumnRef)
    ensures
        resolve_column(seq![t], c) matches Ok(r) ==> refers_to(t, r),
{
    let ts = seq![t];
    match c.qualifier {
        None => {
            lemma_resolved_column(t.schema.columns@, c.column, t.schema.columns@.len() as int);
            assert(resolve_in_tables(ts, c.column, 0) == Ok::<Option<ColumnRef>, crate::query::binder::error::BinderError>(None));
            if let Ok(Some(r)) = resolve_in_tables(ts, c.column, 1) {
                let s = crate::query::binder::transformer::resolve_in_schema(ts[0].schema, c.column);
                let cr = s->Ok_0->Some_0;
                let k = choose|k: int| 0 <= k < t.schema.columns@.len()
                    && cr == (ColumnRef::Unqualified { column: #[trigger] t.schema.columns@[k].name });
                assert(r == (ColumnRef::TableQualified { table: bound_name(t), column: t.schema.columns@[k].name }));
            }
        },
        Some(ColumnQualifier::Table { table }) => {
            lemma_resolved_in_table(t, c.column);
            if let Some(i) = table_bound_as(ts, table@) {
                assert(i == 0);
            }
        },
        _ => {},
    }
}

/// An expression bound in the scope of one table resolves in a scan of it.
pub proof fn lemma_bound_resolves(e: Expression, t: BoundBaseTableRef)
    ensures
        bind_expr(e, ScopeView::Tables(seq![t])) matches Ok(b) ==> refs_resolve(b, seq![scan_descs(t)]),
    decreases e,
{
    match e {
        Expression::Column(c) => {
            lemma_resolve_one_table(t, c);
            if let Ok(r) = resolve_column(seq![t], c) {
                lemma_refers_resolves(t, r);
            }
        },
        Expression::UnaryOp { expr, .. } => lemma_bound_resolves(*expr, t),
        Expression::BinaryOp { left, right, .. } => {
            lemma_bound_resolves(*left, t);
            lemma_bound_resolves(*right, t);
        },
        _ => {},
    }
}

pub proof fn lemma_bound_opt_resolves(w: Option<Expression>, t: BoundBaseTableRef)
    ensures
        bind_opt(w, ScopeView::Tables(seq![t])) matches Ok(Some(b)) ==> refs_resolve(b, seq![scan_descs(t)]),
{
    if let Some(e) = w {
        lemma_bound_resolves(e, t);
    }
}

/// The select list bound over one table resolves in a scan of it.
pub proof fn lemma_bound_items_resolve(items: Seq<SelectItem>, t: BoundBaseTableRef, n: int)
    ensures
        bind_items(items, ScopeView::Tables(seq![t]), n) matches Ok(bs) ==> forall|i: int| 0 <= i < bs.len()
            ==> refs_resolve(#[trigger] bs[i], seq![scan_descs(t)]),
    decreases n,
{
    if n > 0 {
        lemma_bound_items_resolve(items, t, n - 1);
        let scope = ScopeView::Tables(seq![t]);
        if let Ok(bs) = bind_items(items, scope, n) {
            let prev = bind_items(items, scope, n - 1)->Ok_0;
            match items[n - 1] {
                SelectItem::Wildcard => {
                    let ws = wildcard_columns(seq![t]);
                    assert(seq![t].drop_last() =~= Seq::<BoundBaseTableRef>::empty());
                    assert(seq![t].last() == t);
                    assert(wildcard_columns(Seq::<BoundBaseTableRef>::empty()) == Seq::<BoundExpression>::empty());
                    assert forall|i: int| 0 <= i < bs.len() implies refs_resolve(#[trigger] bs[i], seq![scan_descs(t)]) by {
                        if i < prev.len() {
                            assert(bs[i] == prev[i]);
                        } else {
                            let k = i - prev.len();
                            assert(bs[i] == ws[k]);
                            let c = ColumnRef::TableQualified { table: bound_name(t), column: t.schema.columns@[k].name };
                            assert(ws[k] == BoundExpression::Column(c));
                            assert(refers_to(t, c));
                            lemma_refers_resolves(t, c);
                        }
                    }
                },
                SelectItem::Expression(e) => {
                    lemma_bound_resolves(e, t);
                    assert forall|i: int| 0 <= i < bs.len() implies refs_resolve(#[trigger] bs[i], seq![scan_descs(t)]) by {
                        if i < prev.len() {
                            assert(bs[i] == prev[i]);
                        }
                    }
                },
            }
        }
    }
}

/// The assignments of an UPDATE: each target a column of the table, each
/// value resolving in a scan of it.
pub proof fn lemma_bound_assignments(asg: Seq<(String, Expression)>, t: BoundBaseTableRef, n: int)
    ensures
        bind_assignments(asg, t, n) matches Ok(bs) ==> forall|i: int| 0 <= i < bs.len() ==> {
            &&& refs_resolve((#[trigger] bs[i]).1, seq![scan_descs(t)])
            &&& matches_in(seq![scan_descs(t)], column_ref_text(bs[i].0)).len() >= 1
        },
    decreases n,
{
    if n > 0 {
        lemma_bound_assignments(asg, t, n - 1);
        lemma_resolved_in_table(t, asg[n - 1].0);
        lemma_bound_resolves(asg[n - 1].1, t);
        if let Ok(bs) = bind_assignments(asg, t, n) {
            let prev = bind_assignments(asg, t, n - 1)->Ok_0;
            let c = resolve_in_table(t, asg[n - 1].0)->Ok_0;
            lemma_refers_resolves(t, c);
            assert forall|i: int| 0 <= i < bs.len() implies {
                &&& refs_resolve((#[trigger] bs[i]).1, seq![scan_descs(t)])
                &&& matches_in(seq![scan_descs(t)], column_ref_text(bs[i].0)).len() >= 1
            } by {
                if i < prev.len() {
                    assert(bs[i] == prev[i]);
                }
            }
        }
    }
}

/// An expression bound without a scope refers to no column.
pub proof fn lemma_unscoped_resolves(e: Expression)
    ensures
        bind_expr(e, ScopeView::NoScope) matches Ok(b) ==> refs_resolve(b, Seq::empty()),
    decreases e,
{
    match e {
        Expression::UnaryOp { expr, .. } => lemma_unscoped_resolves(*expr),
        Expression::BinaryOp { left, right, .. } => {
            lemma_unscoped_resolves(*left);
            lemma_unscoped_resolves(*right);
        },
        _ => {},
    }
}

pub proof fn lemma_unscoped_list(es: Seq<Expression>, n: int)
    requires
        0 <= n,
    ensures
        bind_exprs(es, ScopeView::NoScope, n) matches Ok(bs) ==> {
            &&& bs.len() == n
            &&& forall|i: int| 0 <= i < bs.len() ==> refs_resolve(#[trigger] bs[i], Seq::empty())
        },
    decreases n,
{
    if n > 0 {
        lemma_unscoped_list(es, n - 1);
        lemma_unscoped_resolves(es[n - 1]);
        if let Ok(bs) = bind_exprs(es, ScopeView::NoScope, n) {
            let prev = bind_exprs(es, ScopeView::NoScope, n - 1)->Ok_0;
            assert forall|i: int| 0 <= i < bs.len() implies refs_resolve(#[trigger] bs[i], Seq::empty()) by {
                if i < prev.len() {
                    assert(bs[i] == prev[i]);
                }
            }
        }
    }
}

/// The rows of a VALUES list: each as long as the column list, and free of
/// column references.
pub proof fn lemma_bound_rows(rows: Seq<Seq<Expression>>, num_cols: nat, n: int)
    requires
        0 <= n,
    ensures
        bind_rows(rows, num_cols, n) matches Ok(bs) ==> {
            &&& bs.len() == n
            &&& forall|r: int| 0 <= r < bs.len() ==> (#[trigger] bs[r]).len() == num_cols
            &&& forall|r: int, i: int| 0 <= r < bs.len() && 0 <= i < bs[r].len() ==> refs_resolve(#[trigger] bs[r][i], Seq::empty())
        },
    decreases n,
{
    if n > 0 {
        lemma_bound_rows(rows, num_cols, n - 1);
        lemma_unscoped_list(rows[n - 1], rows[n - 1].len() as int);
        if let Ok(bs) = bind_rows(rows, num_cols, n) {
            let prev = bind_rows(rows, num_cols, n - 1)->Ok_0;
            assert forall|r: int| 0 <= r < bs.len() implies (#[trigger] bs[r]).len() == num_cols by {
                if r < prev.len() {
                    assert(bs[r] == prev[r]);
                }
            }
            assert forall|r: int, i: int| 0 <= r < bs.len() && 0 <= i < bs[r].len() implies refs_resolve(#[trigger] bs[r][i], Seq::empty()) by {
                if r < prev.len() {
                    assert(bs[r] == prev[r]);
                }
            }
        }
    }
}

/// A column named `name` is found by its exact name.
pub proof fn lemma_first_exact_some(cols: Seq<Column>, name: Seq<char>, k: int, n: int)
    requires
        0 <= k < n <= cols.len(),
        cols[k].name@ == name,
    ensures
        first_exact(cols, name, n) matches Some(j) && 0 <= j < n,
    decreases n,
{
    lemma_first_exact_in(cols, name, n - 1);
    if n - 1 > k {
        lemma_first_exact_some(cols, name, k, n - 1);
    }
}

/// What `first_exact` finds is among the columns it searched.
pub proof fn lemma_first_exact_in(cols: Seq<Column>, name: Seq<char>, n: int)
    ensures
        first_exact(cols, name, n) matches Some(j) ==> 0 <= j < n,
    decreases n,
{
    if n > 0 {
        lemma_first_exact_in(cols, name, n - 1);
    }
}

/// The columns an INSERT names are columns of its table.
pub proof fn lemma_resolved_names(names: Seq<String>, t: BoundBaseTableRef, n: int)
    ensures
        resolve_names(names, t, n) matches Ok(refs) ==> forall|i: int| 0 <= i < refs.len()
            ==> first_exact(t.schema.columns@, ref_column(#[trigger] refs[i]), t.schema.columns@.len() as int) is Some,
    decreases n,
{
    if n > 0 {
        lemma_resolved_names(names, t, n - 1);
        lemma_resolved_in_table(t, names[n - 1]);
        if let Ok(refs) = resolve_names(names, t, n) {
            let prev = resolve_names(names, t, n - 1)->Ok_0;
            let c = resolve_in_table(t, names[n - 1])->Ok_0;
            let k = choose|k: int| 0 <= k < t.schema.columns@.len()
                && c == (ColumnRef::TableQualified { table: bound_name(t), column: #[trigger] t.schema.columns@[k].name });
            lemma_first_exact_some(t.schema.columns@, ref_column(c), k, t.schema.columns@.len() as int);
            assert forall|i: int| 0 <= i < refs.len() implies
                first_exact(t.schema.columns@, ref_column(#[trigger] refs[i]), t.schema.columns@.len() as int) is Some by {
                if i < prev.len() {
                    assert(refs[i] == prev[i]);
                }
            }
        }
    }
}

} // verus!
