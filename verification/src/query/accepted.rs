use vstd::prelude::*;
use crate::catalog::catalog::Catalog;
use crate::catalog::column::ColumnSize;
use crate::catalog::schema::columns_fit;
use crate::catalog::types::SqlType;
use crate::query::binder::expression::{BoundExpression, ColumnRef, column_ref_text};
use crate::query::binder::statement::{BoundDelete, BoundInsert, BoundInsertSource, BoundSelect, BoundStatement, BoundUpdate};
use crate::query::binder::statements::{
    bind_select_items, bind_values, bound_rows_of, delete_binds, insert_binds, insert_columns, names_of,
    rows_of, select_binds, table_scope, update_binds,
};
use crate::query::binder::table_ref::{BoundBaseTableRef, BoundTableRef, base_tables_of};
use crate::query::binder::transformer::ScopeView;
use crate::query::bound::{
    lemma_bound_assignments, lemma_bound_items_resolve, lemma_bound_opt_resolves, lemma_bound_rows,
    lemma_first_exact_in, lemma_first_exact_some, lemma_resolved_names,
};
use crate::query::engine::{
    bound_accepted, create_accepted, declared_sum, explain_accepted, is_query, key_columns, optimizes_to,
    query_accepted, statement_accepted,
};
use crate::query::binder::statements::{
    bound_column, columns_valid, create_table_result, first_named, first_repeat, pk_positions, statement_binds,
    statement_valid,
};
use crate::catalog::column::column_well_formed;
use crate::catalog::schema::all_well_formed;
use crate::query::optimizer::{rewrite_children, rewrite_top};
use crate::query::executor::delete::rows_target_live;
use crate::query::executor::engine::plan_ok;
use crate::query::executor::expression::refs_ok;
use crate::query::executor::projection::all_refs_ok;
use crate::query::executor::seq_scan::{live_rows, scan_output};
use crate::query::optimizer::{Rewrite, apply_rewrite, joins_ok, optimized};
use crate::query::pipeline::{
    base_consistent, lemma_filtered_sound, lemma_live_rows_target, lemma_optimized_scan, lemma_optimized_sound,
    lemma_plan_expr_refs, lemma_plan_ok_view, lemma_rewrite_below, lemma_select_sound, lemma_sound_joins_ok,
    lemma_sound_reads_ok, lemma_sound_rows_bounded, lemma_values_sound, plain_scan, scan_of, sound,
    table_index, view_plan_ok, view_reads_ok, view_rows, view_width, width_of,
};
use crate::query::planner::expression::PlannedExpression;
use crate::query::planner::plan::{PlanKindView, PlanNode, PlanView, scan_descs, schema_ok};
use crate::query::planner::transformer::{
    base_of, first_exact, init_exprs, insert_plannable, insert_planned, insert_result, insert_targets, matches_in,
    plannable, ref_column, select_plannable, source_descs, source_plannable, source_planned, statement_planned,
    update_planned, update_plannable, update_result, update_targets, delete_planned, delete_plannable,
    values_plannable,
};
use crate::query::statement::{InsertSource, SelectStatement, Statement};
use crate::query::table_ref::TableRef;

verus! {

// ---------------------------------------------------------------------
// From binding to planning
// ---------------------------------------------------------------------

/// Every table holds at most `i32::MAX` tuples, the most a statement counts.
pub open spec fn heaps_fit(cat: Catalog) -> bool {
    forall|t: int| 0 <= t < cat.tables@.len() ==> (#[trigger] cat.tables@[t]).table_heap.tuples@.len() <= i32::MAX
}

/// A bound table as the catalog holds it, with its columns well-formed.
proof fn lemma_base_facts(cat: Catalog, t: BoundBaseTableRef)
    requires
        cat.wf(),
        base_consistent(cat, t),
    ensures
        schema_ok(t.schema),
        t.schema.columns@.len() <= usize::MAX,
        t.table_oid == table_index(cat, t),
        0 <= table_index(cat, t) < cat.tables@.len(),
        t.schema.columns@ == cat.tables@[table_index(cat, t)].schema.columns@,
{
    let i = table_index(cat, t);
    assert(cat.tables@[i].table_oid == i);
}

pub proof fn lemma_select_facts(cat: Catalog, s: SelectStatement, bs: BoundSelect)
    requires
        cat.wf(),
        select_binds(cat, s, bs),
        s.table is BaseTable,
        columns_fit(bs.projection@.len()),
    ensures
        bs.table is BaseTable,
        base_consistent(cat, base_of(bs.table)),
        select_plannable(bs),
{
    let bb = bs.table->BaseTable_0;
    let t = base_of(bs.table);
    assert(t == bb);
    lemma_base_facts(cat, t);
    assert(base_tables_of(bs.table) == seq![t]);
    assert(table_scope(bs.table) == ScopeView::Tables(seq![t]));
    lemma_bound_items_resolve(s.projection@, t, s.projection@.len() as int);
    lemma_bound_opt_resolves(s.where_clause, t);
}

// ---------------------------------------------------------------------
// Queries the planner handles run
// ---------------------------------------------------------------------

/// The expressions of an UPDATE keep one per column of the table, each
/// reading its columns.
proof fn lemma_update_targets(targets: Seq<(ColumnRef, BoundExpression)>, cd: Seq<Seq<(Seq<char>, SqlType, ColumnSize)>>, init: Seq<PlannedExpression>, n: int)
    requires
        cd.len() == 1,
        cd[0].len() <= usize::MAX,
        init.len() == cd[0].len(),
        all_refs_ok(init, cd[0].len()),
    ensures
        update_targets(targets, cd, init, n) matches Ok(es) ==> es.len() == init.len() && all_refs_ok(es, cd[0].len()),
    decreases n,
{
    if n > 0 {
        lemma_update_targets(targets, cd, init, n - 1);
        lemma_plan_expr_refs(targets[n - 1].1, cd);
        let name = column_ref_text(targets[n - 1].0);
        crate::query::planner::transformer::lemma_matches_bound(cd[0], name, 0, cd[0].len() as int);
        assert(width_of(cd, 0) == cd[0].len());
        assert(width_of(cd, 1) == 0);
    }
}

proof fn lemma_init_exprs(d: Seq<(Seq<char>, SqlType, ColumnSize)>)
    requires
        d.len() <= usize::MAX,
    ensures
        init_exprs(d).len() == d.len(),
        all_refs_ok(init_exprs(d), d.len()),
{
    assert forall|i: int| 0 <= i < init_exprs(d).len() implies refs_ok(#[trigger] init_exprs(d)[i], d.len(), 0) by {
        assert((i as usize) == i);
    }
}

/// The targets of an INSERT are columns of its table.
proof fn lemma_insert_targets(refs: Seq<ColumnRef>, cols: Seq<crate::catalog::column::Column>, child: Seq<(Seq<char>, SqlType, ColumnSize)>, n: int)
    requires
        n <= refs.len(),
        cols.len() <= usize::MAX,
        forall|i: int| 0 <= i < refs.len() ==> first_exact(cols, ref_column(#[trigger] refs[i]), cols.len() as int) is Some,
    ensures
        insert_targets(refs, cols, child, n) matches Ok(ts) ==> forall|k: int| 0 <= k < ts.len() ==> (#[trigger] ts[k]) < cols.len(),
    decreases n,
{
    if n > 0 {
        lemma_insert_targets(refs, cols, child, n - 1);
        lemma_first_exact_in(cols, ref_column(refs[n - 1]), cols.len() as int);
        if let Ok(ts) = insert_targets(refs, cols, child, n) {
            let prev = insert_targets(refs, cols, child, n - 1)->Ok_0;
            assert forall|k: int| 0 <= k < ts.len() implies (#[trigger] ts[k]) < cols.len() by {
                if k < prev.len() {
                    assert(ts[k] == prev[k]);
                }
            }
        }
    }
}

/// Rewriting a change to a table leaves the change and rewrites its input.
proof fn lemma_optimized_below(cat: Catalog, v: PlanView)
    requires
        v.kind is Insert || v.kind is Update || v.kind is Delete,
    ensures
        optimized(cat, v).schema == v.schema,
        match (v.kind, optimized(cat, v).kind) {
            (PlanKindView::Insert { table_name, table_oid, table_schema, target_col_idxs, child },
             PlanKindView::Insert { table_name: n2, table_oid: o2, table_schema: s2, target_col_idxs: t2, child: c2 }) =>
                n2 == table_name && o2 == table_oid && s2 == table_schema && t2 == target_col_idxs && *c2 == optimized(cat, *child),
            (PlanKindView::Update { table_name, table_oid, table_schema, expressions, child },
             PlanKindView::Update { table_name: n2, table_oid: o2, table_schema: s2, expressions: e2, child: c2 }) =>
                n2 == table_name && o2 == table_oid && s2 == table_schema && e2 == expressions && *c2 == optimized(cat, *child),
            (PlanKindView::Delete { table_oid, child }, PlanKindView::Delete { table_oid: o2, child: c2 }) =>
                o2 == table_oid && *c2 == optimized(cat, *child),
            _ => false,
        },
{
    let a = apply_rewrite(Rewrite::MergeProjection, cat, v);
    lemma_rewrite_below(Rewrite::MergeProjection, cat, v);
    lemma_rewrite_below(Rewrite::IndexJoin, cat, a);
    let b = apply_rewrite(Rewrite::IndexJoin, cat, a);
    lemma_rewrite_below(Rewrite::MergeFilterScan, cat, b);
}

/// A query bound from a statement without joins, over tables of at most
/// `i32::MAX` tuples, plans into what the optimizer and the execution
/// engine accept.
pub proof fn lemma_query_runs(cat: Catalog, b: BoundStatement)
    requires
        cat.wf(),
        heaps_fit(cat),
        plannable(b),
        match b {
            BoundStatement::Select(s) => s.table is BaseTable && base_consistent(cat, base_of(s.table)),
            BoundStatement::Insert(ins) => {
                &&& base_consistent(cat, ins.table)
                &&& match ins.source {
                    BoundInsertSource::Values(l) => {
                        &&& l.values@.len() <= i32::MAX
                        &&& forall|r: int| 0 <= r < l.values@.len() ==> (#[trigger] l.values@[r])@.len() == l.values@[0]@.len()
                    },
                    BoundInsertSource::Select(s) => s.table is BaseTable && base_consistent(cat, base_of(s.table)),
                }
            },
            BoundStatement::Update(u) => base_consistent(cat, u.table),
            BoundStatement::Delete(d) => base_consistent(cat, d.table),
            _ => false,
        },
    ensures
        query_accepted(cat, b),
{
    assert forall|p: PlanNode| #[trigger] statement_planned(cat, b, p) implies {
        &&& joins_ok(p@)
        &&& forall|q: PlanNode| #[trigger] optimizes_to(cat, p, q) ==> plan_ok(cat, q)
    } by {
        lemma_planned_runs(cat, b, p);
    }
}

proof fn lemma_ok_of_view(cat: Catalog, p: PlanNode)
    requires
        view_plan_ok(cat, optimized(cat, p@)),
    ensures
        forall|q: PlanNode| #[trigger] optimizes_to(cat, p, q) ==> plan_ok(cat, q),
{
    assert forall|q: PlanNode| #[trigger] optimizes_to(cat, p, q) implies plan_ok(cat, q) by {
        lemma_plan_ok_view(cat, q);
    }
}

proof fn lemma_planned_runs(cat: Catalog, b: BoundStatement, p: PlanNode)
    requires
        cat.wf(),
        heaps_fit(cat),
        plannable(b),
        statement_planned(cat, b, p),
        match b {
            BoundStatement::Select(s) => s.table is BaseTable && base_consistent(cat, base_of(s.table)),
            BoundStatement::Insert(ins) => {
                &&& base_consistent(cat, ins.table)
                &&& match ins.source {
                    BoundInsertSource::Values(l) => {
                        &&& l.values@.len() <= i32::MAX
                        &&& forall|r: int| 0 <= r < l.values@.len() ==> (#[trigger] l.values@[r])@.len() == l.values@[0]@.len()
                    },
                    BoundInsertSource::Select(s) => s.table is BaseTable && base_consistent(cat, base_of(s.table)),
                }
            },
            BoundStatement::Update(u) => base_consistent(cat, u.table),
            BoundStatement::Delete(d) => base_consistent(cat, d.table),
            _ => false,
        },
    ensures
        joins_ok(p@),
        forall|q: PlanNode| #[trigger] optimizes_to(cat, p, q) ==> plan_ok(cat, q),
{
    match b {
        BoundStatement::Select(s) => {
            lemma_select_sound(cat, s, p);
            lemma_sound_joins_ok(cat, p@);
            lemma_optimized_sound(cat, p@);
            lemma_sound_reads_ok(cat, optimized(cat, p@));
            lemma_ok_of_view(cat, p);
        },
        BoundStatement::Insert(ins) => {
            let ip = p.kind->Insert_0;
            let c = *ip.child;
            match ins.source {
                BoundInsertSource::Values(l) => lemma_values_sound(cat, l, c),
                BoundInsertSource::Select(s) => lemma_select_sound(cat, s, c),
            }
            lemma_sound_joins_ok(cat, c@);
            lemma_optimized_sound(cat, c@);
            lemma_sound_reads_ok(cat, optimized(cat, c@));
            lemma_sound_rows_bounded(cat, optimized(cat, c@));
            lemma_optimized_below(cat, p@);
            let t = ins.table;
            lemma_base_facts(cat, t);
            let targets = insert_result(cat, ins)->Ok_0;
            let cd = source_descs(cat, ins.source)->Ok_0;
            lemma_insert_targets(ins.columns@, t.schema.columns@, cd, cd.len() as int);
            assert(ip.target_col_idxs@ == targets);
            lemma_ok_of_view(cat, p);
        },
        BoundStatement::Update(u) => {
            let up = p.kind->Update_0;
            let c = *up.child;
            let t = u.table;
            lemma_base_facts(cat, t);
            lemma_filtered_sound(cat, t, u.filter_expr, c);
            lemma_sound_joins_ok(cat, c@);
            lemma_optimized_below(cat, p@);
            lemma_optimized_scan(cat, c@, t.table_oid);
            let heap = cat.tables@[t.table_oid as int].table_heap.tuples@;
            lemma_live_rows_target(heap, heap.len() as int);
            let cd = seq![scan_descs(t)];
            assert(scan_descs(t).len() == t.schema.columns@.len());
            lemma_init_exprs(scan_descs(t));
            lemma_update_targets(u.target_exprs@, cd, init_exprs(scan_descs(t)), u.target_exprs@.len() as int);
            lemma_ok_of_view(cat, p);
        },
        BoundStatement::Delete(d) => {
            let dp = p.kind->Delete_0;
            let c = *dp.child;
            let t = d.table;
            lemma_base_facts(cat, t);
            lemma_filtered_sound(cat, t, d.filter_expr, c);
            lemma_sound_joins_ok(cat, c@);
            lemma_optimized_below(cat, p@);
            lemma_optimized_scan(cat, c@, t.table_oid);
            let heap = cat.tables@[t.table_oid as int].table_heap.tuples@;
            lemma_live_rows_target(heap, heap.len() as int);
            lemma_ok_of_view(cat, p);
        },
        _ => {},
    }
}

// ---------------------------------------------------------------------
// Statements the engine runs
// ---------------------------------------------------------------------

/// A statement whose FROM clauses name one table each: the planner does not
/// handle joins.
pub open spec fn join_free(stmt: Statement) -> bool
    decreases stmt,
{
    match stmt {
        Statement::Select(s) => s.table is BaseTable,
        Statement::Insert(ins) => match ins.source {
            InsertSource::Select(s) => s.table is BaseTable,
            InsertSource::Values(_) => true,
        },
        Statement::Explain(x) => join_free(*x.statement),
        _ => true,
    }
}

/// Sizes that the machine integers of the engine hold: output columns
/// whose layout fits in a `usize`, VALUES lists and tables whose rows an
/// `i32` counts, a key size that fits in a `usize`.
pub open spec fn bound_fits(b: BoundStatement) -> bool
    decreases b,
{
    match b {
        BoundStatement::Select(s) => columns_fit(s.projection@.len()),
        BoundStatement::Insert(ins) => {
            &&& columns_fit(ins.columns@.len())
            &&& match ins.source {
                BoundInsertSource::Values(l) => l.values@.len() <= i32::MAX,
                BoundInsertSource::Select(s) => columns_fit(s.projection@.len()),
            }
        },
        BoundStatement::CreateTable(ct) => {
            &&& columns_fit(ct.columns@.len())
            &&& columns_fit(ct.primary_key_col_idxs@.len())
            &&& declared_sum(key_columns(ct.columns@, ct.primary_key_col_idxs@)) <= usize::MAX
        },
        BoundStatement::Explain(x) => bound_fits(*x.statement),
        _ => true,
    }
}

/// The limits a statement runs within: room in the catalog for one more
/// table and index, tables of at most `i32::MAX` tuples, and sizes of the
/// bound statement that fit.
pub open spec fn within_limits(cat: Catalog, stmt: Statement) -> bool {
    &&& cat.tables@.len() + 1 < u32::MAX
    &&& cat.indexes@.len() + 1 < u32::MAX
    &&& heaps_fit(cat)
    &&& forall|b: BoundStatement| #[trigger] statement_binds(cat, stmt, b) ==> bound_fits(b)
}

/// The facts the planner's inputs need, from binding.
pub proof fn lemma_bound_query(cat: Catalog, stmt: Statement, b: BoundStatement)
    requires
        cat.wf(),
        statement_binds(cat, stmt, b),
        join_free(stmt),
        is_query(b),
        bound_fits(b),
    ensures
        plannable(b),
        match b {
            BoundStatement::Select(s) => s.table is BaseTable && base_consistent(cat, base_of(s.table)),
            BoundStatement::Insert(ins) => {
                &&& base_consistent(cat, ins.table)
                &&& match ins.source {
                    BoundInsertSource::Values(l) => {
                        &&& l.values@.len() <= i32::MAX
                        &&& forall|r: int| 0 <= r < l.values@.len() ==> (#[trigger] l.values@[r])@.len() == l.values@[0]@.len()
                    },
                    BoundInsertSource::Select(s) => s.table is BaseTable && base_consistent(cat, base_of(s.table)),
                }
            },
            BoundStatement::Update(u) => base_consistent(cat, u.table),
            BoundStatement::Delete(d) => base_consistent(cat, d.table),
            _ => false,
        },
{
    match (stmt, b) {
        (Statement::Select(s), BoundStatement::Select(bs)) => {
            lemma_select_facts(cat, s, bs);
            assert(plannable(b));
        },
        (Statement::Insert(si), BoundStatement::Insert(ins)) => {
            let t = ins.table;
            lemma_base_facts(cat, t);
            match names_of(si.columns) {
                None => {
                    assert forall|i: int| 0 <= i < ins.columns@.len() implies
                        first_exact(t.schema.columns@, ref_column(#[trigger] ins.columns@[i]), t.schema.columns@.len() as int) is Some by {
                        lemma_first_exact_some(t.schema.columns@, t.schema.columns@[i].name@, i, t.schema.columns@.len() as int);
                    }
                },
                Some(ns) => {
                    lemma_resolved_names(ns, t, ns.len() as int);
                },
            }
            match (si.source, ins.source) {
                (InsertSource::Values(rows), BoundInsertSource::Values(l)) => {
                    let rs = rows_of(rows@);
                    lemma_bound_rows(rs, ins.columns@.len(), rs.len() as int);
                    let bl = bound_rows_of(l.values@);
                    assert forall|r: int| 0 <= r < l.values@.len() implies (#[trigger] l.values@[r])@.len() == l.values@[0]@.len() by {
                        assert(bl[r] == l.values@[r]@);
                        assert(bl[0] == l.values@[0]@);
                    }
                    assert forall|r: int, i: int| 0 <= r < l.values@.len() && 0 <= i < l.values@[r]@.len()
                        implies refs_resolve_empty(#[trigger] l.values@[r]@[i]) by {
                        assert(bl[r] == l.values@[r]@);
                        assert(bl[r][i] == l.values@[r]@[i]);
                    }
                    assert(bl[0] == l.values@[0]@);
                },
                (InsertSource::Select(ss), BoundInsertSource::Select(bsel)) => {
                    lemma_select_facts(cat, ss, bsel);
                },
                _ => {},
            }
            assert(source_plannable(ins.source));
            assert(insert_plannable(ins));
        },
        (Statement::Update(su), BoundStatement::Update(u)) => {
            lemma_base_facts(cat, u.table);
            lemma_bound_opt_resolves(su.where_clause, u.table);
            lemma_bound_assignments(su.assignments@, u.table, su.assignments@.len() as int);
            assert(schema_ok(u.table.schema));
            assert(match u.filter_expr {
                Some(w) => crate::query::planner::transformer::refs_resolve(w, seq![scan_descs(u.table)]),
                None => true,
            });
            let bsa = crate::query::binder::statements::bind_assignments(su.assignments@, u.table, su.assignments@.len() as int);
            assert(bsa == Ok::<Seq<(ColumnRef, BoundExpression)>, crate::query::binder::transformer::BindFailure>(u.target_exprs@));
            assert forall|i: int| 0 <= i < u.target_exprs@.len() implies {
                &&& crate::query::planner::transformer::refs_resolve((#[trigger] u.target_exprs@[i]).1, seq![scan_descs(u.table)])
                &&& matches_in(seq![scan_descs(u.table)], column_ref_text(u.target_exprs@[i].0)).len() >= 1
            } by {
                assert(bsa->Ok_0[i] == u.target_exprs@[i]);
            }
            assert(update_plannable(u));
        },
        (Statement::Delete(sd), BoundStatement::Delete(d)) => {
            lemma_base_facts(cat, d.table);
            lemma_bound_opt_resolves(sd.where_clause, d.table);
            assert(delete_plannable(d));
        },
        _ => {},
    }
}

pub open spec fn refs_resolve_empty(e: BoundExpression) -> bool {
    crate::query::planner::transformer::refs_resolve(e, Seq::empty())
}

// ---------------------------------------------------------------------
// Plans stay shallow
// ---------------------------------------------------------------------

/// Nodes on the longest path of a plan down to a leaf.
pub open spec fn view_depth(v: PlanView) -> nat
    decreases v,
{
    match v.kind {
        PlanKindView::Filter { child, .. } => 1 + view_depth(*child),
        PlanKindView::Projection { child, .. } => 1 + view_depth(*child),
        PlanKindView::Insert { child, .. } => 1 + view_depth(*child),
        PlanKindView::Update { child, .. } => 1 + view_depth(*child),
        PlanKindView::Delete { child, .. } => 1 + view_depth(*child),
        PlanKindView::NestedLoopJoin { left, right, .. } => 1 + if view_depth(*left) >= view_depth(*right) {
            view_depth(*left)
        } else {
            view_depth(*right)
        },
        PlanKindView::NestedIndexJoin { child, .. } => 1 + view_depth(*child),
        _ => 1,
    }
}

pub proof fn lemma_depth_view(p: PlanNode)
    ensures
        p.depth() == view_depth(p@),
    decreases p,
{
    match p.kind {
        crate::query::planner::plan::PlanNodeKind::Filter(f) => lemma_depth_view(*f.child),
        crate::query::planner::plan::PlanNodeKind::Projection(f) => lemma_depth_view(*f.child),
        crate::query::planner::plan::PlanNodeKind::Insert(f) => lemma_depth_view(*f.child),
        crate::query::planner::plan::PlanNodeKind::Update(f) => lemma_depth_view(*f.child),
        crate::query::planner::plan::PlanNodeKind::Delete(f) => lemma_depth_view(*f.child),
        crate::query::planner::plan::PlanNodeKind::NestedLoopJoin(f) => {
            lemma_depth_view(*f.left);
            lemma_depth_view(*f.right);
        },
        crate::query::planner::plan::PlanNodeKind::NestedIndexJoin(f) => lemma_depth_view(*f.child),
        _ => {},
    }
}

/// No rewrite makes a plan deeper.
pub proof fn lemma_rewrite_depth(r: Rewrite, cat: Catalog, v: PlanView)
    ensures
        view_depth(apply_rewrite(r, cat, v)) <= view_depth(v),
    decreases v,
{
    match v.kind {
        PlanKindView::Filter { child, .. } => lemma_rewrite_depth(r, cat, *child),
        PlanKindView::Projection { child, .. } => lemma_rewrite_depth(r, cat, *child),
        PlanKindView::Insert { child, .. } => lemma_rewrite_depth(r, cat, *child),
        PlanKindView::Update { child, .. } => lemma_rewrite_depth(r, cat, *child),
        PlanKindView::Delete { child, .. } => lemma_rewrite_depth(r, cat, *child),
        PlanKindView::NestedLoopJoin { left, right, .. } => {
            lemma_rewrite_depth(r, cat, *left);
            lemma_rewrite_depth(r, cat, *right);
        },
        PlanKindView::NestedIndexJoin { child, .. } => lemma_rewrite_depth(r, cat, *child),
        _ => {},
    }
    let c = rewrite_children(r, cat, v);
    assert(view_depth(c) <= view_depth(v));
    match c.kind {
        PlanKindView::Projection { child, .. } => {
            assert(view_depth(PlanView { schema: c.schema, kind: child.kind }) == view_depth(*child));
        },
        _ => {},
    }
}

pub proof fn lemma_optimized_depth(cat: Catalog, v: PlanView)
    ensures
        view_depth(optimized(cat, v)) <= view_depth(v),
{
    lemma_rewrite_depth(Rewrite::MergeProjection, cat, v);
    let a = apply_rewrite(Rewrite::MergeProjection, cat, v);
    lemma_rewrite_depth(Rewrite::IndexJoin, cat, a);
    let b = apply_rewrite(Rewrite::IndexJoin, cat, a);
    lemma_rewrite_depth(Rewrite::MergeFilterScan, cat, b);
}

proof fn lemma_filtered_depth(cat: Catalog, t: BoundBaseTableRef, w: Option<BoundExpression>, p: PlanNode)
    requires
        crate::query::planner::transformer::filtered(cat, t, w, p),
    ensures
        p.depth() <= 2,
{
    match crate::query::planner::transformer::plan_where(t, w) {
        Ok(None) => {
            assert(p.kind is SeqScan);
        },
        Ok(Some(_)) => {
            let f = p.kind->Filter_0;
            assert((*f.child).kind is SeqScan);
            assert((*f.child).depth() == 1);
        },
        Err(_) => {},
    }
}

/// The plans the planner makes have at most four levels.
proof fn lemma_planned_depth(cat: Catalog, b: BoundStatement, p: PlanNode)
    requires
        statement_planned(cat, b, p),
    ensures
        p.depth() <= 4,
{
    match b {
        BoundStatement::Select(s) => {
            let pp = p.kind->Projection_0;
            lemma_filtered_depth(cat, base_of(s.table), s.where_, *pp.child);
        },
        BoundStatement::Insert(ins) => {
            let ip = p.kind->Insert_0;
            match ins.source {
                BoundInsertSource::Select(s) => {
                    let pp = (*ip.child).kind->Projection_0;
                    lemma_filtered_depth(cat, base_of(s.table), s.where_, *pp.child);
                    assert((*ip.child).depth() == 1 + (*pp.child).depth());
                },
                _ => {
                    assert((*ip.child).kind is Values);
                    assert((*ip.child).depth() == 1);
                },
            }
        },
        BoundStatement::Update(u) => {
            let up = p.kind->Update_0;
            lemma_filtered_depth(cat, u.table, u.filter_expr, *up.child);
        },
        BoundStatement::Delete(d) => {
            let dp = p.kind->Delete_0;
            lemma_filtered_depth(cat, d.table, d.filter_expr, *dp.child);
        },
        _ => {},
    }
}

// ---------------------------------------------------------------------
// Every stage accepts what binding gives it
// ---------------------------------------------------------------------

proof fn lemma_first_named_in(cols: Seq<crate::catalog::column::Column>, name: Seq<char>, n: int)
    ensures
        first_named(cols, name, n) matches Some(k) ==> 0 <= k < n,
    decreases n,
{
    if n > 0 {
        lemma_first_named_in(cols, name, n - 1);
    }
}

proof fn lemma_pk_positions(pk: Seq<String>, cols: Seq<crate::catalog::column::Column>, n: int)
    requires
        cols.len() <= usize::MAX,
    ensures
        pk_positions(pk, cols, n) matches Ok(ps) ==> forall|k: int| 0 <= k < ps.len() ==> (#[trigger] ps[k]) < cols.len(),
    decreases n,
{
    if n > 0 {
        lemma_pk_positions(pk, cols, n - 1);
        lemma_first_named_in(cols, pk[n - 1]@, cols.len() as int);
        if let Ok(ps) = pk_positions(pk, cols, n) {
            let prev = pk_positions(pk, cols, n - 1)->Ok_0;
            assert forall|k: int| 0 <= k < ps.len() implies (#[trigger] ps[k]) < cols.len() by {
                if k < prev.len() {
                    assert(ps[k] == prev[k]);
                }
            }
        }
    }
}

pub proof fn lemma_create_runs(cat: Catalog, s: crate::query::statement::CreateTableStatement, ct: crate::query::binder::statement::BoundCreateTable)
    requires
        cat.tables@.len() + 1 < u32::MAX,
        cat.indexes@.len() + 1 < u32::MAX,
        create_table_result(s) == Ok::<(Seq<crate::catalog::column::Column>, Seq<usize>), crate::query::binder::error::BinderError>((ct.columns@, ct.primary_key_col_idxs@)),
        columns_valid(s.columns@),
        bound_fits(BoundStatement::CreateTable(ct)),
    ensures
        create_accepted(cat, ct),
{
    let cols = s.columns@.map_values(|c: crate::query::statement::CreateColumn| bound_column(c));
    assert(cols == ct.columns@);
    assert forall|i: int| 0 <= i < ct.columns@.len() implies column_well_formed(#[trigger] ct.columns@[i]) by {
        assert(ct.columns@[i] == bound_column(s.columns@[i]));
        assert(columns_valid(s.columns@));
        assert((s.columns@[i].sql_type == crate::catalog::types::SqlType::Varchar) == (s.columns@[i].size is Some));
    }
    lemma_pk_positions(s.primary_key@, cols, s.primary_key@.len() as int);
}

/// A query planned for EXPLAIN: raw or optimized, a plan of at most four
/// levels.
proof fn lemma_explain_runs(cat: Catalog, stmt: Statement, b: BoundStatement, raw: bool)
    requires
        cat.wf(),
        heaps_fit(cat),
        statement_binds(cat, stmt, b),
        join_free(stmt),
        bound_fits(b),
    ensures
        explain_accepted(cat, b, raw),
{
    if is_query(b) {
        lemma_bound_query(cat, stmt, b);
        assert forall|p: PlanNode| #[trigger] statement_planned(cat, b, p) implies (if raw {
            p.depth() < usize::MAX
        } else {
            &&& joins_ok(p@)
            &&& forall|q: PlanNode| #[trigger] optimizes_to(cat, p, q) ==> q.depth() < usize::MAX
        }) by {
            lemma_planned_depth(cat, b, p);
            lemma_planned_runs(cat, b, p);
            lemma_depth_view(p);
            lemma_optimized_depth(cat, p@);
            assert forall|q: PlanNode| #[trigger] optimizes_to(cat, p, q) implies q.depth() < usize::MAX by {
                lemma_depth_view(q);
            }
        }
    }
}

/// Every stage accepts a statement without joins that binds within the
/// limits: the binder's output is planned, optimized, shown and run
/// without a stage being asked for what it does not handle.
pub proof fn lemma_statement_accepted(cat: Catalog, stmt: Statement)
    requires
        cat.wf(),
        statement_valid(stmt),
        join_free(stmt),
        within_limits(cat, stmt),
    ensures
        statement_accepted(cat, stmt),
{
    assert forall|b: BoundStatement| #[trigger] statement_binds(cat, stmt, b) implies bound_accepted(cat, b) by {
        assert(bound_fits(b));
        match (stmt, b) {
            (Statement::CreateTable(s), BoundStatement::CreateTable(ct)) => {
                lemma_create_runs(cat, s, ct);
            },
            (Statement::Explain(x), BoundStatement::Explain(bx)) => {
                lemma_explain_runs(cat, *x.statement, *bx.statement, bx.raw);
            },
            _ => {
                if is_query(b) {
                    lemma_bound_query(cat, stmt, b);
                    lemma_query_runs(cat, b);
                }
            },
        }
    }
}

} // verus!
