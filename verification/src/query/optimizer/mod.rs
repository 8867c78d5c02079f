use vstd::prelude::*;
use crate::catalog::catalog::Catalog;
use crate::catalog::column::Column;
use crate::catalog::error::IndexId;
use crate::catalog::schema::Schema;
use crate::common::position::index_of;
use crate::query::planner::expression::{
    ColumnValueExpression, ComparisonType, ExpressionType, LogicType, PlannedExpression, PlannedExpressionKind,
    spec_type_of_column,
};
use crate::query::planner::plan::{
    NestedIndexJoinPlan, PlanKindView, PlanNode, PlanNodeKind, PlanView, SeqScanPlan, clone_plan, with_children,
};
use crate::query::table_ref::JoinType;

verus! {

// ---------------------------------------------------------------------
// What the rewrites do
// ---------------------------------------------------------------------

/// The rewrites the optimizer applies, each bottom-up over the whole plan.
#[derive(Clone, Copy)]
pub enum Rewrite {
    /// drops a projection that passes its input through unchanged
    MergeProjection,
    /// turns an equi-join of two scans into a lookup in an index of the
    /// inner table
    IndexJoin,
    /// moves a filter over a scan into the scan
    MergeFilterScan,
}

/// A projection passes its input through unchanged: one column expression
/// per input column, in order, of the same type.
pub open spec fn projection_is_identity(exprs: Seq<PlannedExpression>, child_cols: Seq<Column>) -> bool {
    &&& child_cols.len() == exprs.len()
    &&& forall|i: int| 0 <= i < exprs.len() ==> (#[trigger] child_cols[i]).sql_type == exprs[i].return_type.sql_type
    &&& forall|i: int| 0 <= i < exprs.len() ==> (#[trigger] exprs[i]).kind
        == PlannedExpressionKind::ColumnValue(ColumnValueExpression { tuple_idx: 0, col_idx: i as usize })
}

/// The columns of the outer and the inner input that a join predicate
/// equates: an equality of an outer and an inner column, or a conjunction
/// of such.
pub open spec fn extract_cols(e: PlannedExpression) -> Option<(Seq<usize>, Seq<usize>)>
    decreases e,
{
    match e.kind {
        PlannedExpressionKind::Comparison(c) => if c.comparison_type == ComparisonType::Eq {
            match (c.left.kind, c.right.kind) {
                (PlannedExpressionKind::ColumnValue(l), PlannedExpressionKind::ColumnValue(r)) => {
                    if l.tuple_idx == 0 && r.tuple_idx == 1 {
                        Some((seq![l.col_idx], seq![r.col_idx]))
                    } else if l.tuple_idx == 1 && r.tuple_idx == 0 {
                        Some((seq![r.col_idx], seq![l.col_idx]))
                    } else {
                        None
                    }
                },
                _ => None,
            }
        } else {
            None
        },
        PlannedExpressionKind::Logic(l) => if l.logic_type == LogicType::And {
            match (extract_cols(*l.left), extract_cols(*l.right)) {
                (Some((a, b)), Some((c, d))) => Some((a + c, b + d)),
                _ => None,
            }
        } else {
            None
        },
        _ => None,
    }
}

/// The first of the first `n` indexes at positions `xs` keyed on exactly
/// the columns `cols`.
pub open spec fn first_index_on(cat: Catalog, xs: Seq<int>, cols: Seq<usize>, n: int) -> Option<int>
    decreases n,
{
    if n <= 0 {
        None
    } else {
        match first_index_on(cat, xs, cols, n - 1) {
            Some(k) => Some(k),
            None => if cat.indexes@[xs[n - 1]].index.metadata.key_attrs@ == cols { Some(n - 1) } else { None },
        }
    }
}

/// The first index of the table `name` keyed on exactly the columns `cols`.
pub open spec fn index_matching(cat: Catalog, name: Seq<char>, cols: Seq<usize>) -> Option<(IndexId, String)> {
    if cat.table_named(name) is None {
        None
    } else {
        let xs = cat.indexes_of(name);
        match first_index_on(cat, xs, cols, xs.len() as int) {
            None => None,
            Some(k) => Some((cat.indexes@[xs[k]].index_oid, cat.indexes@[xs[k]].index.metadata.name)),
        }
    }
}

/// The expressions that read the columns `cols` of the outer row.
pub open spec fn index_exprs(schema_cols: Seq<Column>, cols: Seq<usize>) -> Seq<PlannedExpression> {
    cols.map_values(|c: usize| PlannedExpression {
        return_type: spec_type_of_column(schema_cols[c as int]),
        kind: PlannedExpressionKind::ColumnValue(ColumnValueExpression { tuple_idx: 0, col_idx: c }),
    })
}

/// A rewrite at one node whose children have been rewritten already.
pub open spec fn rewrite_top(r: Rewrite, cat: Catalog, q: PlanView) -> PlanView {
    match r {
        Rewrite::MergeProjection => match q.kind {
            PlanKindView::Projection { expressions, child } => if projection_is_identity(expressions, child.schema.columns) {
                PlanView { schema: q.schema, kind: child.kind }
            } else {
                q
            },
            _ => q,
        },
        Rewrite::MergeFilterScan => match q.kind {
            PlanKindView::Filter { predicate, child } => match child.kind {
                PlanKindView::SeqScan { table_name, table_oid, filter_predicate } => if filter_predicate is None {
                    PlanView { schema: q.schema, kind: PlanKindView::SeqScan { table_name, table_oid, filter_predicate: Some(predicate) } }
                } else {
                    q
                },
                _ => q,
            },
            _ => q,
        },
        Rewrite::IndexJoin => match q.kind {
            PlanKindView::NestedLoopJoin { left, right, join_type, predicate } => {
                match (predicate, left.kind, right.kind) {
                    (Some(pred), PlanKindView::SeqScan { .. }, PlanKindView::SeqScan { table_name: rn, table_oid: ro, .. }) => {
                        if join_type == JoinType::Left || join_type == JoinType::Inner {
                            match extract_cols(pred) {
                                None => q,
                                Some((lc, rc)) => match index_matching(cat, rn@, rc) {
                                    None => q,
                                    Some((ioid, iname)) => PlanView {
                                        schema: q.schema,
                                        kind: PlanKindView::NestedIndexJoin {
                                            child: left,
                                            predicate_expressions: index_exprs(left.schema.columns, lc),
                                            inner_table_oid: ro,
                                            inner_table_index_oid: ioid,
                                            inner_table_index_name: iname,
                                            inner_table_schema: right.schema,
                                            join_type,
                                        },
                                    },
                                },
                            }
                        } else {
                            q
                        }
                    },
                    _ => q,
                }
            },
            _ => q,
        },
    }
}

/// A rewrite applied bottom-up: first to the children, then at the node.
pub open spec fn apply_rewrite(r: Rewrite, cat: Catalog, p: PlanView) -> PlanView
    decreases p, 1nat,
{
    rewrite_top(r, cat, rewrite_children(r, cat, p))
}

/// A node with the rewrite applied to each of its children.
pub open spec fn rewrite_children(r: Rewrite, cat: Catalog, p: PlanView) -> PlanView
    decreases p, 0nat,
{
    match p.kind {
        PlanKindView::Filter { child, .. } => with_children(p, seq![apply_rewrite(r, cat, *child)]),
        PlanKindView::Projection { child, .. } => with_children(p, seq![apply_rewrite(r, cat, *child)]),
        PlanKindView::Insert { child, .. } => with_children(p, seq![apply_rewrite(r, cat, *child)]),
        PlanKindView::Update { child, .. } => with_children(p, seq![apply_rewrite(r, cat, *child)]),
        PlanKindView::Delete { child, .. } => with_children(p, seq![apply_rewrite(r, cat, *child)]),
        PlanKindView::NestedLoopJoin { left, right, .. } => with_children(p, seq![apply_rewrite(r, cat, *left), apply_rewrite(r, cat, *right)]),
        PlanKindView::NestedIndexJoin { child, .. } => with_children(p, seq![apply_rewrite(r, cat, *child)]),
        _ => p,
    }
}

/// The plan the optimizer makes of `p`.
pub open spec fn optimized(cat: Catalog, p: PlanView) -> PlanView {
    apply_rewrite(Rewrite::MergeFilterScan, cat, apply_rewrite(Rewrite::IndexJoin, cat, apply_rewrite(Rewrite::MergeProjection, cat, p)))
}

/// Every join predicate of the plan that equates columns refers to columns
/// of the outer input.
pub open spec fn joins_ok(p: PlanView) -> bool
    decreases p,
{
    match p.kind {
        PlanKindView::Filter { child, .. } => joins_ok(*child),
        PlanKindView::Projection { child, .. } => joins_ok(*child),
        PlanKindView::Insert { child, .. } => joins_ok(*child),
        PlanKindView::Update { child, .. } => joins_ok(*child),
        PlanKindView::Delete { child, .. } => joins_ok(*child),
        PlanKindView::NestedIndexJoin { child, .. } => joins_ok(*child),
        PlanKindView::NestedLoopJoin { left, right, predicate, .. } => {
            &&& joins_ok(*left)
            &&& joins_ok(*right)
            &&& match predicate {
                Some(pred) => match extract_cols(pred) {
                    Some((lc, _)) => forall|i: int| 0 <= i < lc.len() ==> (#[trigger] lc[i]) < left.schema.columns.len(),
                    None => true,
                },
                None => true,
            }
        },
        _ => true,
    }
}


pub proof fn lemma_rewrite_keeps_schema(r: Rewrite, cat: Catalog, p: PlanView)
    ensures
        apply_rewrite(r, cat, p).schema == p.schema,
{
}

/// Dropping identity projections keeps every join's predicate within its
/// outer input.
pub proof fn lemma_merge_projection_keeps_joins_ok(cat: Catalog, p: PlanView)
    requires
        joins_ok(p),
    ensures
        joins_ok(apply_rewrite(Rewrite::MergeProjection, cat, p)),
        joins_ok(rewrite_children(Rewrite::MergeProjection, cat, p)),
    decreases p,
{
    let r = Rewrite::MergeProjection;
    match p.kind {
        PlanKindView::Filter { child, .. } => lemma_merge_projection_keeps_joins_ok(cat, *child),
        PlanKindView::Projection { child, .. } => lemma_merge_projection_keeps_joins_ok(cat, *child),
        PlanKindView::Insert { child, .. } => lemma_merge_projection_keeps_joins_ok(cat, *child),
        PlanKindView::Update { child, .. } => lemma_merge_projection_keeps_joins_ok(cat, *child),
        PlanKindView::Delete { child, .. } => lemma_merge_projection_keeps_joins_ok(cat, *child),
        PlanKindView::NestedIndexJoin { child, .. } => lemma_merge_projection_keeps_joins_ok(cat, *child),
        PlanKindView::NestedLoopJoin { left, right, .. } => {
            lemma_merge_projection_keeps_joins_ok(cat, *left);
            lemma_merge_projection_keeps_joins_ok(cat, *right);
            lemma_rewrite_keeps_schema(r, cat, *left);
        },
        _ => {},
    }
    let q = rewrite_children(r, cat, p);
    match q.kind {
        PlanKindView::Projection { expressions, child } => {
            if projection_is_identity(expressions, child.schema.columns) {
                assert(joins_ok(*child));
                let v = PlanView { schema: q.schema, kind: child.kind };
                assert(joins_ok(v) == joins_ok(*child));
            }
        },
        _ => {},
    }
}

/// Rewriting the children of a node and putting them back under it.
pub proof fn lemma_rewrite_children_exec(r: Rewrite, cat: Catalog, p: &PlanNode, cs: Seq<PlanView>)
    requires
        cs.len() == p.spec_children().len(),
        forall|j: int| 0 <= j < cs.len() ==> #[trigger] cs[j] == apply_rewrite(r, cat, p.spec_children()[j]@),
    ensures
        with_children(p@, cs) == rewrite_children(r, cat, p@),
{
    match p.kind {
        PlanNodeKind::NestedLoopJoin(_) => {
            assert(cs[0] == apply_rewrite(r, cat, p.spec_children()[0]@));
            assert(cs[1] == apply_rewrite(r, cat, p.spec_children()[1]@));
            assert(cs =~= seq![cs[0], cs[1]]);
        },
        PlanNodeKind::SeqScan(_) | PlanNodeKind::Values(_) | PlanNodeKind::CreateTable(_) => {},
        _ => {
            assert(cs[0] == apply_rewrite(r, cat, p.spec_children()[0]@));
            assert(cs =~= seq![cs[0]]);
        },
    }
}

proof fn lemma_child_joins_ok(p: &PlanNode, j: int)
    requires
        joins_ok(p@),
        0 <= j < p.spec_children().len(),
    ensures
        joins_ok(p.spec_children()[j]@),
{
}

/// The join at the top of a plan, if any, equates columns of its outer
/// input only.
pub open spec fn top_join_ok(q: PlanView) -> bool {
    match q.kind {
        PlanKindView::NestedLoopJoin { left, predicate, .. } => match predicate {
            Some(pred) => match extract_cols(pred) {
                Some((lc, _)) => forall|i: int| 0 <= i < lc.len() ==> (#[trigger] lc[i]) < left.schema.columns.len(),
                None => true,
            },
            None => true,
        },
        _ => true,
    }
}

proof fn lemma_rewrite_children_top_join_ok(r: Rewrite, cat: Catalog, p: PlanView)
    requires
        joins_ok(p),
    ensures
        top_join_ok(rewrite_children(r, cat, p)),
{
    match p.kind {
        PlanKindView::NestedLoopJoin { left, .. } => lemma_rewrite_keeps_schema(r, cat, *left),
        _ => {},
    }
}

proof fn lemma_first_index_found(cat: Catalog, xs: Seq<int>, cols: Seq<usize>, k: int, n: int)
    requires
        0 <= k < n,
        first_index_on(cat, xs, cols, k) is None,
        cat.indexes@[xs[k]].index.metadata.key_attrs@ == cols,
    ensures
        first_index_on(cat, xs, cols, n) == Some(k),
    decreases n - k,
{
    if n > k + 1 {
        lemma_first_index_found(cat, xs, cols, k, n - 1);
    }
}

/// Whether two lists of column positions are the same.
pub fn usizes_eq(a: &[usize], b: &[usize]) -> (res: bool)
    ensures
        res == (a@ == b@),
{
    if a.len() != b.len() {
        return false;
    }
    let mut i: usize = 0;
    while i < a.len()
        invariant
            i <= a@.len(),
            a@.len() == b@.len(),
            forall|j: int| 0 <= j < i ==> a@[j] == b@[j],
        decreases a@.len() - i,
    {
        if a[i] != b[i] {
            return false;
        }
        i = i + 1;
    }
    assert(a@ =~= b@);
    true
}

// ---------------------------------------------------------------------
// The optimizer
// ---------------------------------------------------------------------

/// Rewrites plans into ones that compute the same rows more cheaply.
pub struct Optimizer<'a> {
    pub catalog: &'a Catalog,
}

impl<'a> Optimizer<'a> {
    pub fn new(catalog: &'a Catalog) -> (res: Self)
        ensures
            res.catalog == catalog,
    {
        Optimizer { catalog }
    }

    /// Applies each rewrite in turn, bottom-up over the whole plan.
    pub fn optimize(&self, plan: &PlanNode) -> (res: PlanNode)
        requires
            self.catalog.wf(),
            joins_ok(plan@),
        ensures
            res@ == optimized(*self.catalog, plan@),
    {
        let ghost v0 = plan@;
        let plan = self.optimize_merge_projection(plan);
        proof { lemma_merge_projection_keeps_joins_ok(*self.catalog, v0); }
        let plan = self.optimize_merge_filter_nlj(&plan);
        let plan = self.optimize_nlj_as_hash_join(&plan);
        let plan = self.optimize_nlj_as_index_join(&plan);
        let plan = self.optimize_eliminate_true_filter(&plan);
        let plan = self.optimize_merge_filter_scan(&plan);
        let plan = self.optimize_order_by_as_index_scan(&plan);
        let plan = self.optimize_seq_scan_as_index_scan(&plan);
        let plan = self.optimize_column_pruning(&plan);
        self.optimize_sort_limit_as_top_n(&plan)
    }

    fn optimize_merge_projection(&self, plan: &PlanNode) -> (res: PlanNode)
        requires
            self.catalog.wf(),
        ensures
            res@ == apply_rewrite(Rewrite::MergeProjection, *self.catalog, plan@),
    {
        self.apply(Rewrite::MergeProjection, plan)
    }

    fn optimize_merge_filter_nlj(&self, plan: &PlanNode) -> (res: PlanNode)
        ensures
            res@ == plan@,
    {
        clone_plan(plan)
    }

    fn optimize_nlj_as_hash_join(&self, plan: &PlanNode) -> (res: PlanNode)
        ensures
            res@ == plan@,
    {
        clone_plan(plan)
    }

    fn optimize_nlj_as_index_join(&self, plan: &PlanNode) -> (res: PlanNode)
        requires
            self.catalog.wf(),
            joins_ok(plan@),
        ensures
            res@ == apply_rewrite(Rewrite::IndexJoin, *self.catalog, plan@),
    {
        self.apply(Rewrite::IndexJoin, plan)
    }

    fn optimize_eliminate_true_filter(&self, plan: &PlanNode) -> (res: PlanNode)
        ensures
            res@ == plan@,
    {
        clone_plan(plan)
    }

    fn optimize_merge_filter_scan(&self, plan: &PlanNode) -> (res: PlanNode)
        requires
            self.catalog.wf(),
        ensures
            res@ == apply_rewrite(Rewrite::MergeFilterScan, *self.catalog, plan@),
    {
        self.apply(Rewrite::MergeFilterScan, plan)
    }

    fn optimize_order_by_as_index_scan(&self, plan: &PlanNode) -> (res: PlanNode)
        ensures
            res@ == plan@,
    {
        clone_plan(plan)
    }

    fn optimize_seq_scan_as_index_scan(&self, plan: &PlanNode) -> (res: PlanNode)
        ensures
            res@ == plan@,
    {
        clone_plan(plan)
    }

    fn optimize_column_pruning(&self, plan: &PlanNode) -> (res: PlanNode)
        ensures
            res@ == plan@,
    {
        clone_plan(plan)
    }

    fn optimize_sort_limit_as_top_n(&self, plan: &PlanNode) -> (res: PlanNode)
        ensures
            res@ == plan@,
    {
        clone_plan(plan)
    }

    /// Applies a rewrite bottom-up: to the children first, then at the node.
    fn apply(&self, r: Rewrite, plan: &PlanNode) -> (res: PlanNode)
        requires
            self.catalog.wf(),
            r == Rewrite::IndexJoin ==> joins_ok(plan@),
        ensures
            res@ == apply_rewrite(r, *self.catalog, plan@),
        decreases plan.depth(),
    {
        let children = plan.children();
        let mut optimized_children: Vec<PlanNode> = Vec::new();
        let mut i: usize = 0;
        while i < children.len()
            invariant
                i <= children@.len(),
                children@.len() == plan.spec_children().len(),
                forall|j: int| 0 <= j < children@.len() ==> *#[trigger] children@[j] == plan.spec_children()[j],
                forall|j: int| 0 <= j < children@.len() ==> (#[trigger] children@[j]).depth() < plan.depth(),
                self.catalog.wf(),
                r == Rewrite::IndexJoin ==> joins_ok(plan@),
                optimized_children@.len() == i,
                forall|j: int| 0 <= j < i ==> (#[trigger] optimized_children@[j])@ == apply_rewrite(r, *self.catalog, plan.spec_children()[j]@),
            decreases children@.len() - i,
        {
            proof {
                if r == Rewrite::IndexJoin {
                    lemma_child_joins_ok(plan, index_of(i));
                }
            }
            let c = self.apply(r, children[i]);
            optimized_children.push(c);
            i = i + 1;
        }
        let ghost cs = optimized_children@.map_values(|c: PlanNode| c@);
        let q = plan.clone_with_children(optimized_children);
        proof {
            lemma_rewrite_children_exec(r, *self.catalog, plan, cs);
            if r == Rewrite::IndexJoin {
                lemma_rewrite_children_top_join_ok(r, *self.catalog, plan@);
            }
        }
        match r {
            Rewrite::MergeProjection => Self::merge_projection_top(q),
            Rewrite::MergeFilterScan => Self::merge_filter_scan_top(q),
            Rewrite::IndexJoin => self.index_join_top(q),
        }
    }

    /// Drops a projection that passes its input through unchanged; the
    /// input takes over the projection's schema.
    fn merge_projection_top(q: PlanNode) -> (res: PlanNode)
        ensures
            res@ == rewrite_top(Rewrite::MergeProjection, arbitrary(), q@),
    {
        let ghost qv = q@;
        let PlanNode { output_schema, kind } = q;
        match kind {
            PlanNodeKind::Projection(pp) => {
                let child = *pp.child;
                let exprs = pp.expressions;
                let ghost cv = child@;
                if child.output_schema.columns.len() != exprs.len() {
                    return PlanNode { output_schema, kind: PlanNodeKind::Projection(crate::query::planner::plan::ProjectionPlan { expressions: exprs, child: Box::new(child) }) };
                }
                let mut i: usize = 0;
                let mut identity = true;
                while i < exprs.len()
                    invariant
                        i <= exprs@.len(),
                        child.output_schema.columns@.len() == exprs@.len(),
                        identity ==> forall|j: int| 0 <= j < i ==> (#[trigger] child.output_schema.columns@[j]).sql_type == exprs@[j].return_type.sql_type,
                        !identity ==> !projection_is_identity(exprs@, child.output_schema.columns@),
                    decreases exprs@.len() - i,
                {
                    if identity && child.output_schema.columns[i].sql_type != exprs[i].return_type.sql_type {
                        identity = false;
                    }
                    i = i + 1;
                }
                let mut k: usize = 0;
                while k < exprs.len()
                    invariant
                        k <= exprs@.len(),
                        child.output_schema.columns@.len() == exprs@.len(),
                        identity ==> forall|j: int| 0 <= j < exprs@.len() ==> (#[trigger] child.output_schema.columns@[j]).sql_type == exprs@[j].return_type.sql_type,
                        identity ==> forall|j: int| 0 <= j < k ==> (#[trigger] exprs@[j]).kind
                            == PlannedExpressionKind::ColumnValue(ColumnValueExpression { tuple_idx: 0, col_idx: j as usize }),
                        !identity ==> !projection_is_identity(exprs@, child.output_schema.columns@),
                    decreases exprs@.len() - k,
                {
                    if identity {
                        let ok = match &exprs[k].kind {
                            PlannedExpressionKind::ColumnValue(c) => c.tuple_idx == 0 && c.col_idx == k,
                            _ => false,
                        };
                        if !ok {
                            identity = false;
                        }
                    }
                    k = k + 1;
                }
                if identity {
                    assert(projection_is_identity(exprs@, child.output_schema.columns@));
                    let mut merged = child;
                    merged.output_schema = output_schema;
                    merged
                } else {
                    PlanNode { output_schema, kind: PlanNodeKind::Projection(crate::query::planner::plan::ProjectionPlan { expressions: exprs, child: Box::new(child) }) }
                }
            },
            kind => PlanNode { output_schema, kind },
        }
    }

    /// Moves a filter over a scan without a predicate into the scan.
    fn merge_filter_scan_top(q: PlanNode) -> (res: PlanNode)
        ensures
            res@ == rewrite_top(Rewrite::MergeFilterScan, arbitrary(), q@),
    {
        let ghost qv = q@;
        let PlanNode { output_schema, kind } = q;
        match kind {
            PlanNodeKind::Filter(f) => {
                let child = *f.child;
                let predicate = f.predicate;
                assert(qv.kind == PlanKindView::Filter { predicate, child: Box::new(child@) });
                match child.kind {
                    PlanNodeKind::SeqScan(s) => {
                        if s.filter_predicate.is_none() {
                            PlanNode {
                                output_schema,
                                kind: PlanNodeKind::SeqScan(SeqScanPlan { table_name: s.table_name, table_oid: s.table_oid, filter_predicate: Some(predicate) }),
                            }
                        } else {
                            let child = PlanNode { output_schema: child.output_schema, kind: PlanNodeKind::SeqScan(s) };
                            PlanNode { output_schema, kind: PlanNodeKind::Filter(crate::query::planner::plan::FilterPlan { predicate, child: Box::new(child) }) }
                        }
                    },
                    other => {
                        let child = PlanNode { output_schema: child.output_schema, kind: other };
                        PlanNode { output_schema, kind: PlanNodeKind::Filter(crate::query::planner::plan::FilterPlan { predicate, child: Box::new(child) }) }
                    },
                }
            },
            kind => PlanNode { output_schema, kind },
        }
    }

    /// Turns an equi-join of two scans, inner or left, into lookups in an
    /// index of the inner table keyed on exactly the equated columns.
    fn index_join_top(&self, q: PlanNode) -> (res: PlanNode)
        requires
            self.catalog.wf(),
            top_join_ok(q@),
        ensures
            res@ == rewrite_top(Rewrite::IndexJoin, *self.catalog, q@),
    {
        if let PlanNodeKind::NestedLoopJoin(j) = &q.kind {
            if j.join_type == JoinType::Left || j.join_type == JoinType::Inner {
                if let (Some(pred), PlanNodeKind::SeqScan(_), PlanNodeKind::SeqScan(rs)) = (&j.predicate, &j.left.kind, &j.right.kind) {
                    if let Some((lc, rc)) = Self::extract_index_exprs_for_index_join_predicate(pred) {
                        if let Some((ioid, iname)) = self.matches_index_of_tbl(rs.table_name.as_str(), &rc) {
                            proof {
                                let qv = q@;
                                assert(qv.kind == PlanKindView::NestedLoopJoin {
                                    left: Box::new(j.left@),
                                    right: Box::new(j.right@),
                                    join_type: j.join_type,
                                    predicate: j.predicate,
                                });
                                assert(j.left@.schema.columns == j.left.output_schema.columns@);
                            }
                            let predicate_expressions = Self::build_index_expressions(&j.left.output_schema, lc.as_slice());
                            return PlanNode {
                                output_schema: q.output_schema.clone(),
                                kind: PlanNodeKind::NestedIndexJoin(NestedIndexJoinPlan {
                                    child: Box::new(clone_plan(&j.left)),
                                    predicate_expressions,
                                    inner_table_oid: rs.table_oid,
                                    inner_table_index_oid: ioid,
                                    inner_table_index_name: iname,
                                    inner_table_schema: j.right.output_schema.clone(),
                                    join_type: j.join_type,
                                }),
                            };
                        }
                    }
                }
            }
        }
        q
    }

    /// The outer and inner columns a join predicate equates, if it is an
    /// equality of columns or a conjunction of such.
    pub fn extract_index_exprs_for_index_join_predicate(predicate: &PlannedExpression) -> (res: Option<(Vec<usize>, Vec<usize>)>)
        ensures
            match (res, extract_cols(*predicate)) {
                (Some((a, b)), Some((c, d))) => a@ == c && b@ == d,
                (None, None) => true,
                _ => false,
            },
        decreases predicate,
    {
        match &predicate.kind {
            PlannedExpressionKind::Comparison(c) => {
                if c.comparison_type != ComparisonType::Eq {
                    return None;
                }
                match (&c.left.kind, &c.right.kind) {
                    (PlannedExpressionKind::ColumnValue(l), PlannedExpressionKind::ColumnValue(r)) => {
                        let (lcol, rcol) = if l.tuple_idx == 0 && r.tuple_idx == 1 {
                            (l.col_idx, r.col_idx)
                        } else if l.tuple_idx == 1 && r.tuple_idx == 0 {
                            (r.col_idx, l.col_idx)
                        } else {
                            return None;
                        };
                        let mut a: Vec<usize> = Vec::new();
                        a.push(lcol);
                        let mut b: Vec<usize> = Vec::new();
                        b.push(rcol);
                        assert(a@ =~= seq![lcol]);
                        assert(b@ =~= seq![rcol]);
                        Some((a, b))
                    },
                    _ => None,
                }
            },
            PlannedExpressionKind::Logic(l) => {
                if l.logic_type != LogicType::And {
                    return None;
                }
                match (Self::extract_index_exprs_for_index_join_predicate(&l.left), Self::extract_index_exprs_for_index_join_predicate(&l.right)) {
                    (Some((mut a, mut b)), Some((mut c, mut d))) => {
                        a.append(&mut c);
                        b.append(&mut d);
                        Some((a, b))
                    },
                    _ => None,
                }
            },
            _ => None,
        }
    }

    /// The first index of the table `table_name` keyed on exactly the
    /// columns `col_idxes`.
    pub fn matches_index_of_tbl(&self, table_name: &str, col_idxes: &Vec<usize>) -> (res: Option<(IndexId, String)>)
        requires
            self.catalog.wf(),
        ensures
            res == index_matching(*self.catalog, table_name@, col_idxes@),
    {
        let ghost cat = *self.catalog;
        let infos = match self.catalog.get_table_indexes(table_name) {
            Err(_) => return None,
            Ok(v) => v,
        };
        let ghost xs = cat.indexes_of(table_name@);
        let mut k: usize = 0;
        while k < infos.len()
            invariant
                k <= infos@.len(),
                cat == *self.catalog,
                infos@.len() == xs.len(),
                xs == cat.indexes_of(table_name@),
                cat.table_named(table_name@) is Some,
                forall|j: int| 0 <= j < infos@.len() ==> *#[trigger] infos@[j] == cat.indexes@[xs[j]],
                first_index_on(cat, xs, col_idxes@, index_of(k)) is None,
            decreases infos@.len() - k,
        {
            let info = infos[k];
            if usizes_eq(info.index.metadata.key_attrs.as_slice(), col_idxes.as_slice()) {
                proof { lemma_first_index_found(cat, xs, col_idxes@, index_of(k), xs.len() as int); }
                return Some((info.oid(), info.index.metadata.name.clone()));
            }
            k = k + 1;
        }
        None
    }

    /// The expressions that read the columns `col_idxs` of the outer row.
    pub fn build_index_expressions(schema: &Schema, col_idxs: &[usize]) -> (res: Vec<PlannedExpression>)
        requires
            forall|i: int| 0 <= i < col_idxs@.len() ==> (#[trigger] col_idxs@[i]) < schema.columns@.len(),
        ensures
            res@ == index_exprs(schema.columns@, col_idxs@),
    {
        let mut res: Vec<PlannedExpression> = Vec::new();
        let mut i: usize = 0;
        while i < col_idxs.len()
            invariant
                i <= col_idxs@.len(),
                forall|j: int| 0 <= j < col_idxs@.len() ==> (#[trigger] col_idxs@[j]) < schema.columns@.len(),
                res@ == index_exprs(schema.columns@, col_idxs@).subrange(0, index_of(i)),
            decreases col_idxs@.len() - i,
        {
            let c = col_idxs[i];
            res.push(PlannedExpression {
                return_type: ExpressionType::from_column(&schema.columns[c]),
                kind: PlannedExpressionKind::ColumnValue(ColumnValueExpression { tuple_idx: 0, col_idx: c }),
            });
            i = i + 1;
            assert(res@ =~= index_exprs(schema.columns@, col_idxs@).subrange(0, index_of(i)));
        }
        assert(res@ =~= index_exprs(schema.columns@, col_idxs@));
        res
    }
}

} // verus!
