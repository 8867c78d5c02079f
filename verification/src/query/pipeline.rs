use vstd::prelude::*;
use crate::catalog::catalog::Catalog;
use crate::query::executor::delete::rows_target_live;
use crate::query::executor::engine::{RowView, node_rows, node_width, plan_ok, reads_ok};
use crate::query::executor::error::ExecutionError;
use crate::query::executor::expression::refs_ok;
use crate::query::executor::filter::filter_rows;
use crate::query::executor::insert::insert_fits;
use crate::query::executor::projection::{all_refs_ok, project_rows};
use crate::query::executor::seq_scan::scan_output;
use crate::query::executor::values::values_rows;
use crate::query::optimizer::{Rewrite, apply_rewrite, optimized, rewrite_children, rewrite_top, projection_is_identity};
use crate::query::planner::plan::{PlanKindView, PlanNode, PlanNodeKind, PlanView, rows_view, with_children};
use crate::query::executor::seq_scan::live_rows;
use crate::storage::tuple::{Tuple, TupleMeta};
use crate::catalog::column::ColumnSize;
use crate::catalog::types::SqlType;
use crate::query::binder::expression::BoundExpression;
use crate::query::binder::statement::{BoundSelect, BoundStatement};
use crate::query::binder::table_ref::{BoundBaseTableRef, BoundExpressionListRef};
use crate::query::optimizer::joins_ok;
use crate::query::planner::expression::PlannedExpression;
use crate::query::planner::plan::{descs, scan_descs};
use crate::query::planner::transformer::{
    base_of, exprs_of, filtered, lemma_matches_bound, lemma_no_inputs_plans, lemma_plan_list_len,
    matches_in, matches_in_cols, plan_expr, plan_list, plan_row, plan_where, proj_descs, refs_resolve,
    scans, select_list, select_planned, values_descs, values_planned, values_plannable,
};

verus! {

// ---------------------------------------------------------------------
// What the execution engine asks of a plan, read off its view
// ---------------------------------------------------------------------

/// The rows a reading plan produces.
pub open spec fn view_rows(cat: Catalog, p: PlanView) -> Result<Seq<RowView>, ExecutionError>
    decreases p,
{
    match p.kind {
        PlanKindView::SeqScan { table_oid, .. } => scan_output(cat, table_oid),
        PlanKindView::Filter { predicate, child } => match view_rows(cat, *child) {
            Err(e) => Err(e),
            Ok(rows) => filter_rows(predicate, rows, rows.len() as int),
        },
        PlanKindView::Projection { expressions, child } => match view_rows(cat, *child) {
            Err(e) => Err(e),
            Ok(rows) => project_rows(expressions, rows, rows.len() as int),
        },
        PlanKindView::Values { rows } => values_rows(rows, rows.len() as int),
        _ => Err(ExecutionError::UnsupportedPlan),
    }
}

/// How many values each row of a reading plan holds.
pub open spec fn view_width(cat: Catalog, p: PlanView) -> nat
    decreases p,
{
    match p.kind {
        PlanKindView::SeqScan { table_oid, .. } => if table_oid < cat.tables@.len() {
            cat.tables@[table_oid as int].schema.columns@.len()
        } else {
            0
        },
        PlanKindView::Filter { child, .. } => view_width(cat, *child),
        PlanKindView::Projection { expressions, .. } => expressions.len(),
        PlanKindView::Values { rows } => if rows.len() > 0 { rows[0].len() } else { 0 },
        _ => 0,
    }
}

/// A reading plan whose expressions refer only to columns of their inputs.
pub open spec fn view_reads_ok(cat: Catalog, p: PlanView) -> bool
    decreases p,
{
    match p.kind {
        PlanKindView::SeqScan { .. } => true,
        PlanKindView::Filter { predicate, child } => view_reads_ok(cat, *child) && refs_ok(predicate, view_width(cat, *child), 0),
        PlanKindView::Projection { expressions, child } => view_reads_ok(cat, *child) && all_refs_ok(expressions, view_width(cat, *child)),
        PlanKindView::Values { rows } => forall|r: int| 0 <= r < rows.len() ==> {
            &&& all_refs_ok(#[trigger] rows[r], 0)
            &&& rows[r].len() == rows[0].len()
        },
        _ => false,
    }
}

/// A plan the execution engine runs, read off its view.
pub open spec fn view_plan_ok(cat: Catalog, p: PlanView) -> bool {
    match p.kind {
        PlanKindView::Insert { table_oid, table_schema, target_col_idxs, child, .. } => {
            &&& view_reads_ok(cat, *child)
            &&& forall|i: int| 0 <= i < target_col_idxs.len() ==> (#[trigger] target_col_idxs[i]) < table_schema.columns.len()
            &&& table_oid < cat.tables@.len() ==> table_schema.columns.len() == cat.tables@[table_oid as int].schema.columns@.len()
            &&& view_rows(cat, *child) matches Ok(rows) ==> rows.len() <= i32::MAX
        },
        PlanKindView::Update { table_oid, expressions, child, .. } => {
            &&& view_reads_ok(cat, *child)
            &&& view_rows(cat, *child) matches Ok(rows) ==> {
                &&& rows.len() <= i32::MAX
                &&& table_oid < cat.tables@.len() ==> rows_target_live(cat.tables@[table_oid as int].table_heap.tuples@, rows)
            }
            &&& table_oid < cat.tables@.len() ==> {
                &&& expressions.len() == cat.tables@[table_oid as int].schema.columns@.len()
                &&& all_refs_ok(expressions, cat.tables@[table_oid as int].schema.columns@.len())
            }
        },
        PlanKindView::Delete { table_oid, child } => {
            &&& view_reads_ok(cat, *child)
            &&& view_rows(cat, *child) matches Ok(rows) ==> {
                &&& rows.len() <= i32::MAX
                &&& table_oid < cat.tables@.len() ==> rows_target_live(cat.tables@[table_oid as int].table_heap.tuples@, rows)
            }
        },
        PlanKindView::CreateTable { .. } => true,
        _ => view_reads_ok(cat, p),
    }
}

/// A plan's rows, width and readability are those of its view.
pub proof fn lemma_reader_view(cat: Catalog, p: PlanNode)
    ensures
        node_rows(cat, p) == view_rows(cat, p@),
        node_width(cat, p) == view_width(cat, p@),
        reads_ok(cat, p) == view_reads_ok(cat, p@),
    decreases p,
{
    match p.kind {
        PlanNodeKind::Filter(f) => {
            lemma_reader_view(cat, *f.child);
            assert(p@.kind == PlanKindView::Filter { predicate: f.predicate, child: Box::new((*f.child)@) });
            assert(reads_ok(cat, p) == (reads_ok(cat, *f.child) && refs_ok(f.predicate, node_width(cat, *f.child), 0)));
            assert(view_reads_ok(cat, p@) == (view_reads_ok(cat, (*f.child)@) && refs_ok(f.predicate, view_width(cat, (*f.child)@), 0)));
            assert(reads_ok(cat, *f.child) == view_reads_ok(cat, (*f.child)@));
            assert(node_width(cat, *f.child) == view_width(cat, (*f.child)@));
            assert(reads_ok(cat, p) == view_reads_ok(cat, p@));
        },
        PlanNodeKind::Projection(pp) => {
            lemma_reader_view(cat, *pp.child);
            assert(p@.kind == PlanKindView::Projection { expressions: pp.expressions@, child: Box::new((*pp.child)@) });
        },
        PlanNodeKind::Values(v) => {
            let rs = rows_view(v.rows@);
            assert forall|r: int| 0 <= r < rs.len() implies #[trigger] rs[r] == v.rows@[r]@ by {}
            assert(p@.kind == PlanKindView::Values { rows: rs });
            if reads_ok(cat, p) {
                assert forall|r: int| 0 <= r < rs.len() implies {
                    &&& all_refs_ok(#[trigger] rs[r], 0)
                    &&& rs[r].len() == rs[0].len()
                } by {
                    assert(rs[r] == v.rows@[r]@);
                    assert(rs[0] == v.rows@[0]@);
                }
            }
            if view_reads_ok(cat, p@) {
                assert forall|r: int| 0 <= r < v.rows@.len() implies {
                    &&& all_refs_ok((#[trigger] v.rows@[r])@, 0)
                    &&& v.rows@[r]@.len() == v.rows@[0]@.len()
                } by {
                    assert(rs[r] == v.rows@[r]@);
                    assert(rs[0] == v.rows@[0]@);
                }
            }
        },
        _ => {},
    }
}

/// A plan whose view the execution engine accepts is accepted.
pub proof fn lemma_plan_ok_view(cat: Catalog, p: PlanNode)
    requires
        view_plan_ok(cat, p@),
    ensures
        plan_ok(cat, p),
{
    match p.kind {
        PlanNodeKind::Insert(ip) => {
            lemma_reader_view(cat, *ip.child);
            assert(p@.kind == PlanKindView::Insert {
                table_name: ip.table_name,
                table_oid: ip.table_oid,
                table_schema: ip.table_schema@,
                target_col_idxs: ip.target_col_idxs@,
                child: Box::new((*ip.child)@),
            });
            let vv = p@;
            assert(view_reads_ok(cat, (*ip.child)@));
            assert forall|i: int| 0 <= i < ip.target_col_idxs@.len() implies (#[trigger] ip.target_col_idxs@[i]) < ip.table_schema.columns@.len() by {
                match vv.kind {
                    PlanKindView::Insert { target_col_idxs, table_schema, .. } => {
                        assert(target_col_idxs == ip.target_col_idxs@);
                        assert(table_schema.columns == ip.table_schema.columns@);
                        assert(target_col_idxs[i] < table_schema.columns.len());
                    },
                    _ => {},
                }
            }
            assert(insert_fits(cat, ip));
        },
        PlanNodeKind::Update(up) => lemma_reader_view(cat, *up.child),
        PlanNodeKind::Delete(dp) => lemma_reader_view(cat, *dp.child),
        _ => lemma_reader_view(cat, p),
    }
}

// ---------------------------------------------------------------------
// Reading plans the optimizer keeps runnable
// ---------------------------------------------------------------------

/// A reading plan without joins whose expressions refer only to columns of
/// their inputs, whose every node has as many columns as its rows have
/// values, and whose VALUES lists have at most `i32::MAX` rows.
pub open spec fn sound(cat: Catalog, v: PlanView) -> bool
    decreases v,
{
    &&& v.schema.columns.len() == view_width(cat, v)
    &&& match v.kind {
        PlanKindView::SeqScan { .. } => true,
        PlanKindView::Filter { predicate, child } => sound(cat, *child) && refs_ok(predicate, view_width(cat, *child), 0),
        PlanKindView::Projection { expressions, child } => sound(cat, *child) && all_refs_ok(expressions, view_width(cat, *child)),
        PlanKindView::Values { rows } => {
            &&& rows.len() <= i32::MAX
            &&& forall|r: int| 0 <= r < rows.len() ==> {
                &&& all_refs_ok(#[trigger] rows[r], 0)
                &&& rows[r].len() == rows[0].len()
            }
        },
        _ => false,
    }
}

pub proof fn lemma_sound_reads_ok(cat: Catalog, v: PlanView)
    requires
        sound(cat, v),
    ensures
        view_reads_ok(cat, v),
    decreases v,
{
    match v.kind {
        PlanKindView::Filter { child, .. } => lemma_sound_reads_ok(cat, *child),
        PlanKindView::Projection { child, .. } => lemma_sound_reads_ok(cat, *child),
        _ => {},
    }
}

/// Every rewrite keeps a sound plan sound, with as many columns.
pub proof fn lemma_rewrite_sound(r: Rewrite, cat: Catalog, v: PlanView)
    requires
        sound(cat, v),
    ensures
        sound(cat, apply_rewrite(r, cat, v)),
        view_width(cat, apply_rewrite(r, cat, v)) == view_width(cat, v),
    decreases v,
{
    let c = rewrite_children(r, cat, v);
    match v.kind {
        PlanKindView::Filter { predicate, child } => {
            lemma_rewrite_sound(r, cat, *child);
            assert(c.kind == PlanKindView::Filter { predicate, child: Box::new(apply_rewrite(r, cat, *child)) });
        },
        PlanKindView::Projection { expressions, child } => {
            lemma_rewrite_sound(r, cat, *child);
            assert(c.kind == PlanKindView::Projection { expressions, child: Box::new(apply_rewrite(r, cat, *child)) });
        },
        _ => {
            assert(c == v);
        },
    }
    assert(sound(cat, c));
    assert(view_width(cat, c) == view_width(cat, v));
    let t = rewrite_top(r, cat, c);
    match r {
        Rewrite::MergeProjection => {
            match c.kind {
                PlanKindView::Projection { expressions, child } => {
                    if projection_is_identity(expressions, child.schema.columns) {
                        assert(t.kind == child.kind);
                        assert(view_width(cat, t) == view_width(cat, *child));
                        assert(sound(cat, t));
                    }
                },
                _ => {},
            }
        },
        Rewrite::MergeFilterScan => {},
        Rewrite::IndexJoin => {},
    }
}

/// The table a scan reads, with its predicate.
pub open spec fn scan_of(v: PlanView, oid: u32) -> bool {
    v.kind matches PlanKindView::SeqScan { table_oid, .. } && table_oid == oid
}

/// A scan of the table `oid`, filtered or not, is a scan of it once
/// optimized.
pub proof fn lemma_optimized_scan(cat: Catalog, v: PlanView, oid: u32)
    requires
        ({
            ||| (v.kind matches PlanKindView::SeqScan { table_oid, filter_predicate, .. } && table_oid == oid && filter_predicate is None)
            ||| (v.kind matches PlanKindView::Filter { child, .. } && (child.kind matches PlanKindView::SeqScan { table_oid, filter_predicate, .. } && table_oid == oid && filter_predicate is None))
        }),
    ensures
        scan_of(optimized(cat, v), oid),
{
    match v.kind {
        PlanKindView::Filter { predicate, child } => {
            let a = apply_rewrite(Rewrite::MergeProjection, cat, v);
            assert(apply_rewrite(Rewrite::MergeProjection, cat, *child) == *child);
            assert(a.kind == PlanKindView::Filter { predicate, child });
            let b = apply_rewrite(Rewrite::IndexJoin, cat, a);
            assert(apply_rewrite(Rewrite::IndexJoin, cat, *child) == *child);
            assert(b.kind == PlanKindView::Filter { predicate, child });
            assert(apply_rewrite(Rewrite::MergeFilterScan, cat, *child) == *child);
        },
        _ => {},
    }
}

/// Rewriting a change to a table rewrites its input.
pub proof fn lemma_rewrite_below(r: Rewrite, cat: Catalog, v: PlanView)
    ensures
        (v.kind matches PlanKindView::Insert { child, .. } || v.kind matches PlanKindView::Update { child, .. } || v.kind matches PlanKindView::Delete { child, .. })
            ==> apply_rewrite(r, cat, v) == rewrite_children(r, cat, v),
{
}

/// The rows of a scan are live tuples of its table, each once, in order.
pub proof fn lemma_live_rows_target(tuples: Seq<(TupleMeta, Tuple)>, n: int)
    requires
        0 <= n <= tuples.len(),
        tuples.len() <= usize::MAX,
    ensures
        rows_target_live(tuples, live_rows(tuples, n)),
        live_rows(tuples, n).len() <= n,
        forall|i: int| 0 <= i < live_rows(tuples, n).len() ==> (#[trigger] live_rows(tuples, n)[i]).rid->0 < n,
    decreases n,
{
    if n > 0 {
        lemma_live_rows_target(tuples, n - 1);
        let prev = live_rows(tuples, n - 1);
        let cur = live_rows(tuples, n);
        if !tuples[n - 1].0.is_deleted {
            let row = RowView { rid: Some((n - 1) as usize), values: tuples[n - 1].1.values@ };
            assert(cur == prev.push(row));
            assert forall|i: int| 0 <= i < cur.len() implies {
                &&& (#[trigger] cur[i]).rid is Some
                &&& cur[i].rid->0 < tuples.len()
                &&& !tuples[cur[i].rid->0 as int].0.is_deleted
                &&& cur[i].rid->0 < n
            } by {
                if i < prev.len() {
                    assert(cur[i] == prev[i]);
                } else {
                    assert(cur[i] == row);
                }
            }
            assert forall|i: int, j: int| 0 <= i < j < cur.len() implies (#[trigger] cur[i]).rid != (#[trigger] cur[j]).rid by {
                assert(cur[i] == prev[i]);
                if j < prev.len() {
                    assert(cur[j] == prev[j]);
                } else {
                    assert(cur[j] == row);
                    assert(prev[i].rid->0 < n - 1);
                }
            }
        }
    }
}

/// The rows a sound plan produces number at most `i32::MAX` where its tables
/// hold at most that many tuples.
pub proof fn lemma_sound_rows_bounded(cat: Catalog, v: PlanView)
    requires
        sound(cat, v),
        forall|t: int| 0 <= t < cat.tables@.len() ==> (#[trigger] cat.tables@[t]).table_heap.tuples@.len() <= i32::MAX,
    ensures
        view_rows(cat, v) matches Ok(rows) ==> rows.len() <= i32::MAX,
    decreases v,
{
    match v.kind {
        PlanKindView::SeqScan { table_oid, .. } => {
            if table_oid < cat.tables@.len() {
                let heap = cat.tables@[table_oid as int].table_heap.tuples@;
                lemma_live_rows_target(heap, heap.len() as int);
            }
        },
        PlanKindView::Filter { predicate, child } => {
            lemma_sound_rows_bounded(cat, *child);
            if let Ok(rows) = view_rows(cat, *child) {
                lemma_filter_rows_len(predicate, rows, rows.len() as int);
            }
        },
        PlanKindView::Projection { expressions, child } => {
            lemma_sound_rows_bounded(cat, *child);
            if let Ok(rows) = view_rows(cat, *child) {
                lemma_project_rows_len(expressions, rows, rows.len() as int);
            }
        },
        PlanKindView::Values { rows } => {
            lemma_values_rows_len(rows, rows.len() as int);
        },
        _ => {},
    }
}

proof fn lemma_filter_rows_len(pred: crate::query::planner::expression::PlannedExpression, rows: Seq<RowView>, n: int)
    requires
        0 <= n,
    ensures
        filter_rows(pred, rows, n) matches Ok(out) ==> out.len() <= n,
    decreases n,
{
    if n > 0 {
        lemma_filter_rows_len(pred, rows, n - 1);
    }
}

proof fn lemma_project_rows_len(es: Seq<crate::query::planner::expression::PlannedExpression>, rows: Seq<RowView>, n: int)
    requires
        0 <= n,
    ensures
        project_rows(es, rows, n) matches Ok(out) ==> out.len() == n,
    decreases n,
{
    if n > 0 {
        lemma_project_rows_len(es, rows, n - 1);
    }
}

proof fn lemma_values_rows_len(rows: Seq<Seq<crate::query::planner::expression::PlannedExpression>>, n: int)
    requires
        0 <= n,
    ensures
        values_rows(rows, n) matches Ok(out) ==> out.len() == n,
    decreases n,
{
    if n > 0 {
        lemma_values_rows_len(rows, n - 1);
    }
}

// ---------------------------------------------------------------------
// What the planner builds
// ---------------------------------------------------------------------

pub open spec fn width_of(cd: Seq<Seq<(Seq<char>, SqlType, ColumnSize)>>, i: int) -> nat {
    if 0 <= i < cd.len() { cd[i].len() } else { 0 }
}

/// A planned expression refers only to columns of the inputs it was planned
/// over.
pub proof fn lemma_plan_expr_refs(e: BoundExpression, cd: Seq<Seq<(Seq<char>, SqlType, ColumnSize)>>)
    requires
        forall|i: int| 0 <= i < cd.len() ==> (#[trigger] cd[i]).len() <= usize::MAX,
    ensures
        plan_expr(e, cd) matches Ok((_, pe)) ==> refs_ok(pe, width_of(cd, 0), width_of(cd, 1)),
    decreases e,
{
    match e {
        BoundExpression::Column(c) => {
            let name = crate::query::binder::expression::column_ref_text(c);
            let ms = matches_in(cd, name);
            if ms.len() == 1 {
                if cd.len() == 1 {
                    lemma_matches_bound(cd[0], name, 0, cd[0].len() as int);
                    assert(ms[0] == matches_in_cols(cd[0], name, 0, cd[0].len() as int)[0]);
                } else if cd.len() == 2 {
                    let a = matches_in_cols(cd[0], name, 0, cd[0].len() as int);
                    let b = matches_in_cols(cd[1], name, 1, cd[1].len() as int);
                    lemma_matches_bound(cd[0], name, 0, cd[0].len() as int);
                    lemma_matches_bound(cd[1], name, 1, cd[1].len() as int);
                    if a.len() > 0 {
                        assert(ms[0] == a[0]);
                    } else {
                        assert(ms[0] == b[0]);
                    }
                }
            }
        },
        BoundExpression::BinaryOp { left, right, .. } => {
            lemma_plan_expr_refs(*left, cd);
            lemma_plan_expr_refs(*right, cd);
        },
        BoundExpression::UnaryOp { expr, .. } => lemma_plan_expr_refs(*expr, cd),
        _ => {},
    }
}

/// The same, for the first `n` expressions of a list planned over one input.
pub proof fn lemma_plan_list_refs(es: Seq<BoundExpression>, cd: Seq<Seq<(Seq<char>, SqlType, ColumnSize)>>, n: int)
    requires
        cd.len() <= 1,
        forall|i: int| 0 <= i < cd.len() ==> (#[trigger] cd[i]).len() <= usize::MAX,
    ensures
        plan_list(es, cd, n) matches Ok(l) ==> all_refs_ok(exprs_of(l), width_of(cd, 0)),
    decreases n,
{
    if n > 0 {
        lemma_plan_list_refs(es, cd, n - 1);
        lemma_plan_expr_refs(es[n - 1], cd);
        if let Ok(l) = plan_list(es, cd, n) {
            let prev = plan_list(es, cd, n - 1)->Ok_0;
            assert(l == prev.push(plan_expr(es[n - 1], cd)->Ok_0));
            assert forall|i: int| 0 <= i < exprs_of(l).len() implies refs_ok(#[trigger] exprs_of(l)[i], width_of(cd, 0), 0) by {
                if i < prev.len() {
                    assert(exprs_of(l)[i] == exprs_of(prev)[i]);
                }
            }
        }
    }
}

/// A bound table as the catalog holds it.
pub open spec fn base_consistent(cat: Catalog, t: BoundBaseTableRef) -> bool {
    cat.table_named(t.table_name@) matches Some(i) && t.schema@ == cat.tables@[i].schema@ && t.table_oid == cat.tables@[i].table_oid
}

/// The table that a bound table is in the catalog.
pub open spec fn table_index(cat: Catalog, t: BoundBaseTableRef) -> int {
    cat.table_named(t.table_name@)->0
}

/// A scan, filtered or not, of the table `oid` that has not been given a
/// predicate yet.
pub open spec fn plain_scan(v: PlanView, oid: u32) -> bool {
    ||| (v.kind matches PlanKindView::SeqScan { table_oid, filter_predicate, .. } && table_oid == oid && filter_predicate is None)
    ||| (v.kind matches PlanKindView::Filter { child, .. } && (child.kind matches PlanKindView::SeqScan { table_oid, filter_predicate, .. } && table_oid == oid && filter_predicate is None))
}

pub proof fn lemma_scans_sound(cat: Catalog, t: BoundBaseTableRef, p: PlanNode)
    requires
        cat.wf(),
        scans(cat, t, p),
        base_consistent(cat, t),
    ensures
        sound(cat, p@),
        p@.kind matches PlanKindView::SeqScan { table_oid, filter_predicate, .. } && table_oid == t.table_oid && filter_predicate is None,
        view_width(cat, p@) == scan_descs(t).len(),
{
    let i = table_index(cat, t);
    let sp = p.kind->SeqScan_0;
    assert(cat.tables@[i].table_oid == i);
    assert(sp.table_oid == i);
    assert(p@.kind == PlanKindView::SeqScan { table_name: sp.table_name, table_oid: sp.table_oid, filter_predicate: sp.filter_predicate });
    assert(scan_descs(t).len() == t.schema.columns@.len());
    assert(t.schema.columns@ == cat.tables@[i].schema.columns@);
    assert(descs(p.output_schema.columns@).len() == p.output_schema.columns@.len());
    assert(p@.schema.columns == p.output_schema.columns@);
}

pub proof fn lemma_filtered_sound(cat: Catalog, t: BoundBaseTableRef, w: Option<BoundExpression>, p: PlanNode)
    requires
        cat.wf(),
        filtered(cat, t, w, p),
        base_consistent(cat, t),
    ensures
        sound(cat, p@),
        plain_scan(p@, t.table_oid),
        view_width(cat, p@) == scan_descs(t).len(),
{
    let i = table_index(cat, t);
    assert(cat.tables@[i].table_oid == i);
    assert(scan_descs(t).len() == t.schema.columns@.len());
    match plan_where(t, w) {
        Ok(None) => {
            lemma_scans_sound(cat, t, p);
        },
        Ok(Some(e)) => {
            let f = p.kind->Filter_0;
            let c = *f.child;
            assert(descs(c.output_schema.columns@).len() == c.output_schema.columns@.len());
            lemma_plan_expr_refs(w->0, seq![scan_descs(t)]);
            assert(width_of(seq![scan_descs(t)], 0) == scan_descs(t).len());
            assert(width_of(seq![scan_descs(t)], 1) == 0);
            lemma_scans_sound(cat, t, c);
            assert(p@.kind == PlanKindView::Filter { predicate: f.predicate, child: Box::new(c@) });
        },
        Err(_) => {},
    }
}

pub proof fn lemma_select_sound(cat: Catalog, s: BoundSelect, p: PlanNode)
    requires
        cat.wf(),
        select_planned(cat, s, p),
        s.table is BaseTable,
        base_consistent(cat, base_of(s.table)),
    ensures
        sound(cat, p@),
        view_width(cat, p@) == s.projection@.len(),
{
    let t = base_of(s.table);
    let l = select_list(cat, s)->Ok_0;
    let pp = p.kind->Projection_0;
    lemma_filtered_sound(cat, t, s.where_, *pp.child);
    let cd = seq![scan_descs(t)];
    assert(cd[0].len() <= usize::MAX) by {
        assert(scan_descs(t).len() == t.schema.columns@.len());
    }
    lemma_plan_list_refs(s.projection@, cd, s.projection@.len() as int);
    lemma_plan_list_len(s.projection@, cd, s.projection@.len() as int);
    assert(width_of(cd, 0) == scan_descs(t).len());
    assert(descs(p.output_schema.columns@).len() == p.output_schema.columns@.len());
    assert(proj_descs(l).len() == l.len());
    assert(p@.kind == PlanKindView::Projection { expressions: pp.expressions@, child: Box::new((*pp.child)@) });
}

/// The rows of a VALUES list planned without inputs.
pub proof fn lemma_plan_row(row: Seq<BoundExpression>)
    requires
        forall|i: int| 0 <= i < row.len() ==> refs_resolve(#[trigger] row[i], Seq::empty()),
    ensures
        plan_row(row).len() == row.len(),
        all_refs_ok(plan_row(row), 0),
{
    lemma_plan_list_ok(row, Seq::empty(), row.len() as int);
    lemma_plan_list_len(row, Seq::empty(), row.len() as int);
    lemma_plan_list_refs(row, Seq::empty(), row.len() as int);
}

proof fn lemma_plan_list_ok(row: Seq<BoundExpression>, cd: Seq<Seq<(Seq<char>, SqlType, ColumnSize)>>, n: int)
    requires
        cd.len() == 0,
        n <= row.len(),
        forall|i: int| 0 <= i < row.len() ==> refs_resolve(#[trigger] row[i], Seq::empty()),
    ensures
        plan_list(row, cd, n) is Ok,
    decreases n,
{
    if n > 0 {
        lemma_plan_list_ok(row, cd, n - 1);
        assert(refs_resolve(row[n - 1], Seq::empty()));
        lemma_no_inputs_plans(row[n - 1]);
        assert(cd =~= Seq::<Seq<(Seq<char>, SqlType, ColumnSize)>>::empty());
    }
}

pub proof fn lemma_values_sound(cat: Catalog, l: BoundExpressionListRef, p: PlanNode)
    requires
        values_planned(l, p),
        values_plannable(l),
        l.values@.len() <= i32::MAX,
        forall|r: int| 0 <= r < l.values@.len() ==> (#[trigger] l.values@[r])@.len() == l.values@[0]@.len(),
    ensures
        sound(cat, p@),
{
    let v = p.kind->Values_0;
    let rs = rows_view(v.rows@);
    assert forall|r: int| 0 <= r < rs.len() implies {
        &&& all_refs_ok(#[trigger] rs[r], 0)
        &&& rs[r].len() == rs[0].len()
    } by {
        assert(rs[r] == v.rows@[r]@);
        assert(rs[0] == v.rows@[0]@);
        assert(v.rows@[r]@ == plan_row(l.values@[r]@));
        assert(v.rows@[0]@ == plan_row(l.values@[0]@));
        assert forall|i: int| 0 <= i < l.values@[r]@.len() implies refs_resolve(#[trigger] l.values@[r]@[i], Seq::empty()) by {}
        assert forall|i: int| 0 <= i < l.values@[0]@.len() implies refs_resolve(#[trigger] l.values@[0]@[i], Seq::empty()) by {}
        lemma_plan_row(l.values@[r]@);
        lemma_plan_row(l.values@[0]@);
    }
    assert(rs[0] == v.rows@[0]@);
    assert(descs(p.output_schema.columns@).len() == p.output_schema.columns@.len());
    assert(values_descs(l).len() == plan_row(l.values@[0]@).len());
    assert(p@.kind == PlanKindView::Values { rows: rs });
}

/// A sound plan has no joins.
pub proof fn lemma_sound_joins_ok(cat: Catalog, v: PlanView)
    requires
        sound(cat, v),
    ensures
        joins_ok(v),
    decreases v,
{
    match v.kind {
        PlanKindView::Filter { child, .. } => lemma_sound_joins_ok(cat, *child),
        PlanKindView::Projection { child, .. } => lemma_sound_joins_ok(cat, *child),
        _ => {},
    }
}

/// Optimizing a sound plan: three sound rewrites.
pub proof fn lemma_optimized_sound(cat: Catalog, v: PlanView)
    requires
        sound(cat, v),
    ensures
        sound(cat, optimized(cat, v)),
        view_width(cat, optimized(cat, v)) == view_width(cat, v),
{
    lemma_rewrite_sound(Rewrite::MergeProjection, cat, v);
    let a = apply_rewrite(Rewrite::MergeProjection, cat, v);
    lemma_rewrite_sound(Rewrite::IndexJoin, cat, a);
    let b = apply_rewrite(Rewrite::IndexJoin, cat, a);
    lemma_rewrite_sound(Rewrite::MergeFilterScan, cat, b);
}

} // verus!
