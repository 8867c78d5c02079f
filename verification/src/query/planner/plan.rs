use vstd::prelude::*;
use crate::catalog::column::{Column, ColumnSize, column_well_formed};
use crate::catalog::types::{SqlType, spec_inline_size};
use crate::common::position::index_of;
use crate::query::binder::table_ref::{BoundBaseTableRef, bound_name};
use crate::query::planner::expression::ExpressionType;
use crate::catalog::error::{IndexId, TableId};
use crate::catalog::schema::{Schema, SchemaView, clone_columns, clone_usizes, laid_out, all_well_formed, columns_fit, lemma_laid_out_again, lemma_same_shape_prefixes, inline_prefix, null_bitmap_bytes, placed};
use crate::common::strings::concat3;
use crate::query::planner::expression::{PlannedExpression, clone_expr, clone_exprs, spec_column_of_type};
use crate::query::statement::{OrderByNullType, OrderByType};
use crate::query::table_ref::JoinType;

verus! {

/// A node of a query plan and the schema of the rows it produces.
#[derive(Debug)]
pub struct PlanNode {
    pub output_schema: Schema,
    pub kind: PlanNodeKind,
}

#[derive(Debug)]
pub enum PlanNodeKind {
    SeqScan(SeqScanPlan),
    Filter(FilterPlan),
    Projection(ProjectionPlan),
    Values(ValuesPlan),
    Insert(InsertPlan),
    CreateTable(CreateTablePlan),
    Update(UpdatePlan),
    Delete(DeletePlan),
    NestedLoopJoin(NestedLoopJoinPlan),
    NestedIndexJoin(NestedIndexJoinPlan),
}

#[derive(Debug)]
pub struct SeqScanPlan {
    pub table_name: String,
    pub table_oid: TableId,
    pub filter_predicate: Option<PlannedExpression>,
}

#[derive(Debug)]
pub struct FilterPlan {
    pub predicate: PlannedExpression,
    pub child: Box<PlanNode>,
}

#[derive(Debug)]
pub struct ProjectionPlan {
    pub expressions: Vec<PlannedExpression>,
    pub child: Box<PlanNode>,
}

#[derive(Debug)]
pub struct ValuesPlan {
    pub rows: Vec<Vec<PlannedExpression>>,
}

#[derive(Debug)]
pub struct InsertPlan {
    pub table_name: String,
    pub table_oid: TableId,
    pub table_schema: Schema,
    pub target_col_idxs: Vec<usize>,
    pub child: Box<PlanNode>,
}

#[derive(Debug)]
pub struct CreateTablePlan {
    pub name: String,
    pub columns: Vec<Column>,
    pub primary_key_col_idxs: Vec<usize>,
}

#[derive(Debug)]
pub struct UpdatePlan {
    pub table_name: String,
    pub table_oid: TableId,
    pub table_schema: Schema,
    pub expressions: Vec<PlannedExpression>,
    pub child: Box<PlanNode>,
}

#[derive(Debug)]
pub struct DeletePlan {
    pub table_oid: TableId,
    pub child: Box<PlanNode>,
}

#[derive(Debug)]
pub struct NestedLoopJoinPlan {
    pub left: Box<PlanNode>,
    pub right: Box<PlanNode>,
    pub join_type: JoinType,
    pub predicate: Option<PlannedExpression>,
}

#[derive(Debug)]
pub struct NestedIndexJoinPlan {
    /// the outer side of the join
    pub child: Box<PlanNode>,
    /// expressions over the outer rows whose values are looked up in the
    /// index of the inner table (one per index column)
    pub predicate_expressions: Vec<PlannedExpression>,
    pub inner_table_oid: TableId,
    pub inner_table_index_oid: IndexId,
    pub inner_table_index_name: String,
    pub inner_table_schema: Schema,
    pub join_type: JoinType,
}

/// One ORDER BY clause after planning.
#[derive(Debug)]
pub struct PlannedOrderBy {
    pub expression: PlannedExpression,
    pub order_by_type: OrderByType,
    pub null_type: OrderByNullType,
}

/// Sorts the rows of its input by its ORDER BY clauses.
#[derive(Debug)]
pub struct SortPlan {
    pub order_bys: Vec<PlannedOrderBy>,
}

/// Passes on no more rows of its input than its limit says.
#[derive(Debug)]
pub struct LimitPlan {
    pub limit: PlannedExpression,
}

/// A plan node with its vectors seen as sequences.
pub struct PlanView {
    pub schema: SchemaView,
    pub kind: PlanKindView,
}

pub enum PlanKindView {
    SeqScan { table_name: String, table_oid: TableId, filter_predicate: Option<PlannedExpression> },
    Filter { predicate: PlannedExpression, child: Box<PlanView> },
    Projection { expressions: Seq<PlannedExpression>, child: Box<PlanView> },
    Values { rows: Seq<Seq<PlannedExpression>> },
    Insert {
        table_name: String,
        table_oid: TableId,
        table_schema: SchemaView,
        target_col_idxs: Seq<usize>,
        child: Box<PlanView>,
    },
    CreateTable { name: String, columns: Seq<Column>, primary_key_col_idxs: Seq<usize> },
    Update {
        table_name: String,
        table_oid: TableId,
        table_schema: SchemaView,
        expressions: Seq<PlannedExpression>,
        child: Box<PlanView>,
    },
    Delete { table_oid: TableId, child: Box<PlanView> },
    NestedLoopJoin {
        left: Box<PlanView>,
        right: Box<PlanView>,
        join_type: JoinType,
        predicate: Option<PlannedExpression>,
    },
    NestedIndexJoin {
        child: Box<PlanView>,
        predicate_expressions: Seq<PlannedExpression>,
        inner_table_oid: TableId,
        inner_table_index_oid: IndexId,
        inner_table_index_name: String,
        inner_table_schema: SchemaView,
        join_type: JoinType,
    },
}

pub open spec fn rows_view(rows: Seq<Vec<PlannedExpression>>) -> Seq<Seq<PlannedExpression>> {
    rows.map_values(|r: Vec<PlannedExpression>| r@)
}

impl PlanNode {
    pub open spec fn view(&self) -> PlanView
        decreases self,
    {
        PlanView {
            schema: self.output_schema@,
            kind: match self.kind {
                PlanNodeKind::SeqScan(p) => PlanKindView::SeqScan {
                    table_name: p.table_name,
                    table_oid: p.table_oid,
                    filter_predicate: p.filter_predicate,
                },
                PlanNodeKind::Filter(p) => PlanKindView::Filter {
                    predicate: p.predicate,
                    child: Box::new((*p.child).view()),
                },
                PlanNodeKind::Projection(p) => PlanKindView::Projection {
                    expressions: p.expressions@,
                    child: Box::new((*p.child).view()),
                },
                PlanNodeKind::Values(p) => PlanKindView::Values { rows: rows_view(p.rows@) },
                PlanNodeKind::Insert(p) => PlanKindView::Insert {
                    table_name: p.table_name,
                    table_oid: p.table_oid,
                    table_schema: p.table_schema@,
                    target_col_idxs: p.target_col_idxs@,
                    child: Box::new((*p.child).view()),
                },
                PlanNodeKind::CreateTable(p) => PlanKindView::CreateTable {
                    name: p.name,
                    columns: p.columns@,
                    primary_key_col_idxs: p.primary_key_col_idxs@,
                },
                PlanNodeKind::Update(p) => PlanKindView::Update {
                    table_name: p.table_name,
                    table_oid: p.table_oid,
                    table_schema: p.table_schema@,
                    expressions: p.expressions@,
                    child: Box::new((*p.child).view()),
                },
                PlanNodeKind::Delete(p) => PlanKindView::Delete {
                    table_oid: p.table_oid,
                    child: Box::new((*p.child).view()),
                },
                PlanNodeKind::NestedLoopJoin(p) => PlanKindView::NestedLoopJoin {
                    left: Box::new((*p.left).view()),
                    right: Box::new((*p.right).view()),
                    join_type: p.join_type,
                    predicate: p.predicate,
                },
                PlanNodeKind::NestedIndexJoin(p) => PlanKindView::NestedIndexJoin {
                    child: Box::new((*p.child).view()),
                    predicate_expressions: p.predicate_expressions@,
                    inner_table_oid: p.inner_table_oid,
                    inner_table_index_oid: p.inner_table_index_oid,
                    inner_table_index_name: p.inner_table_index_name,
                    inner_table_schema: p.inner_table_schema@,
                    join_type: p.join_type,
                },
            },
        }
    }

    /// Nodes on the longest path down to a leaf.
    pub open spec fn depth(&self) -> nat
        decreases self,
    {
        match self.kind {
            PlanNodeKind::Filter(p) => 1 + (*p.child).depth(),
            PlanNodeKind::Projection(p) => 1 + (*p.child).depth(),
            PlanNodeKind::Insert(p) => 1 + (*p.child).depth(),
            PlanNodeKind::Update(p) => 1 + (*p.child).depth(),
            PlanNodeKind::Delete(p) => 1 + (*p.child).depth(),
            PlanNodeKind::NestedLoopJoin(p) => 1 + if (*p.left).depth() >= (*p.right).depth() {
                (*p.left).depth()
            } else {
                (*p.right).depth()
            },
            PlanNodeKind::NestedIndexJoin(p) => 1 + (*p.child).depth(),
            _ => 1,
        }
    }

    /// The children of a node, in order.
    pub open spec fn spec_children(&self) -> Seq<PlanNode> {
        match self.kind {
            PlanNodeKind::Filter(p) => seq![*p.child],
            PlanNodeKind::Projection(p) => seq![*p.child],
            PlanNodeKind::Insert(p) => seq![*p.child],
            PlanNodeKind::Update(p) => seq![*p.child],
            PlanNodeKind::Delete(p) => seq![*p.child],
            PlanNodeKind::NestedLoopJoin(p) => seq![*p.left, *p.right],
            PlanNodeKind::NestedIndexJoin(p) => seq![*p.child],
            _ => Seq::empty(),
        }
    }

    pub fn output_schema(&self) -> (res: &Schema)
        ensures
            res == &self.output_schema,
    {
        &self.output_schema
    }

    /// The children of this node, in order.
    pub fn children(&self) -> (res: Vec<&PlanNode>)
        ensures
            res@.len() == self.spec_children().len(),
            forall|i: int| 0 <= i < res@.len() ==> *#[trigger] res@[i] == self.spec_children()[i],
            forall|i: int| 0 <= i < res@.len() ==> (#[trigger] res@[i]).depth() < self.depth(),
    {
        let mut res: Vec<&PlanNode> = Vec::new();
        match &self.kind {
            PlanNodeKind::Filter(p) => res.push(&p.child),
            PlanNodeKind::Projection(p) => res.push(&p.child),
            PlanNodeKind::Insert(p) => res.push(&p.child),
            PlanNodeKind::Update(p) => res.push(&p.child),
            PlanNodeKind::Delete(p) => res.push(&p.child),
            PlanNodeKind::NestedLoopJoin(p) => {
                res.push(&p.left);
                res.push(&p.right);
            },
            PlanNodeKind::NestedIndexJoin(p) => res.push(&p.child),
            _ => {},
        }
        res
    }

    /// The same node over new children (as many as it has).
    pub fn clone_with_children(&self, children: Vec<PlanNode>) -> (res: Self)
        requires
            children@.len() == self.spec_children().len(),
        ensures
            res@ == with_children(self@, children@.map_values(|c: PlanNode| c@)),
    {
        let mut children = children;
        let ghost cs = children@;
        let output_schema = self.output_schema.clone();
        let kind = match &self.kind {
            PlanNodeKind::SeqScan(p) => PlanNodeKind::SeqScan(SeqScanPlan {
                table_name: p.table_name.clone(),
                table_oid: p.table_oid,
                filter_predicate: clone_opt_expr(&p.filter_predicate),
            }),
            PlanNodeKind::Filter(p) => {
                let child = children.pop().unwrap();
                PlanNodeKind::Filter(FilterPlan { predicate: clone_expr(&p.predicate), child: Box::new(child) })
            },
            PlanNodeKind::Projection(p) => {
                let child = children.pop().unwrap();
                PlanNodeKind::Projection(
                    ProjectionPlan { expressions: clone_exprs(p.expressions.as_slice()), child: Box::new(child) },
                )
            },
            PlanNodeKind::Values(p) => PlanNodeKind::Values(ValuesPlan { rows: clone_rows(&p.rows) }),
            PlanNodeKind::Insert(p) => {
                let child = children.pop().unwrap();
                PlanNodeKind::Insert(InsertPlan {
                    table_name: p.table_name.clone(),
                    table_oid: p.table_oid,
                    table_schema: p.table_schema.clone(),
                    target_col_idxs: clone_usizes(p.target_col_idxs.as_slice()),
                    child: Box::new(child),
                })
            },
            PlanNodeKind::CreateTable(p) => PlanNodeKind::CreateTable(CreateTablePlan {
                name: p.name.clone(),
                columns: clone_columns(p.columns.as_slice()),
                primary_key_col_idxs: clone_usizes(p.primary_key_col_idxs.as_slice()),
            }),
            PlanNodeKind::Update(p) => {
                let child = children.pop().unwrap();
                PlanNodeKind::Update(UpdatePlan {
                    table_name: p.table_name.clone(),
                    table_oid: p.table_oid,
                    table_schema: p.table_schema.clone(),
                    expressions: clone_exprs(p.expressions.as_slice()),
                    child: Box::new(child),
                })
            },
            PlanNodeKind::Delete(p) => {
                let child = children.pop().unwrap();
                PlanNodeKind::Delete(DeletePlan { table_oid: p.table_oid, child: Box::new(child) })
            },
            PlanNodeKind::NestedLoopJoin(p) => {
                let right = children.pop().unwrap();
                let left = children.pop().unwrap();
                PlanNodeKind::NestedLoopJoin(NestedLoopJoinPlan {
                    left: Box::new(left),
                    right: Box::new(right),
                    join_type: p.join_type,
                    predicate: clone_opt_expr(&p.predicate),
                })
            },
            PlanNodeKind::NestedIndexJoin(p) => {
                let child = children.pop().unwrap();
                PlanNodeKind::NestedIndexJoin(NestedIndexJoinPlan {
                    child: Box::new(child),
                    predicate_expressions: clone_exprs(p.predicate_expressions.as_slice()),
                    inner_table_oid: p.inner_table_oid,
                    inner_table_index_oid: p.inner_table_index_oid,
                    inner_table_index_name: p.inner_table_index_name.clone(),
                    inner_table_schema: p.inner_table_schema.clone(),
                    join_type: p.join_type,
                })
            },
        };
        let res = PlanNode { output_schema, kind };
        proof {
            let vs = cs.map_values(|c: PlanNode| c@);
            if cs.len() >= 1 {
                assert(vs[0] == cs[0]@);
            }
            if cs.len() >= 2 {
                assert(vs[1] == cs[1]@);
            }
        }
        res
    }
}

/// The view of `p` with its children replaced by `cs`.
pub open spec fn with_children(p: PlanView, cs: Seq<PlanView>) -> PlanView {
    PlanView {
        schema: p.schema,
        kind: match p.kind {
            PlanKindView::Filter { predicate, child } => PlanKindView::Filter { predicate, child: Box::new(cs[0]) },
            PlanKindView::Projection { expressions, child } => PlanKindView::Projection { expressions, child: Box::new(cs[0]) },
            PlanKindView::Insert { table_name, table_oid, table_schema, target_col_idxs, child } =>
                PlanKindView::Insert { table_name, table_oid, table_schema, target_col_idxs, child: Box::new(cs[0]) },
            PlanKindView::Update { table_name, table_oid, table_schema, expressions, child } =>
                PlanKindView::Update { table_name, table_oid, table_schema, expressions, child: Box::new(cs[0]) },
            PlanKindView::Delete { table_oid, child } => PlanKindView::Delete { table_oid, child: Box::new(cs[0]) },
            PlanKindView::NestedLoopJoin { left, right, join_type, predicate } =>
                PlanKindView::NestedLoopJoin { left: Box::new(cs[0]), right: Box::new(cs[1]), join_type, predicate },
            PlanKindView::NestedIndexJoin {
                child,
                predicate_expressions,
                inner_table_oid,
                inner_table_index_oid,
                inner_table_index_name,
                inner_table_schema,
                join_type,
            } => PlanKindView::NestedIndexJoin {
                child: Box::new(cs[0]),
                predicate_expressions,
                inner_table_oid,
                inner_table_index_oid,
                inner_table_index_name,
                inner_table_schema,
                join_type,
            },
            other => other,
        },
    }
}

/// A copy of an optional expression.
pub fn clone_opt_expr(e: &Option<PlannedExpression>) -> (res: Option<PlannedExpression>)
    ensures
        res == *e,
{
    match e {
        Some(e) => Some(clone_expr(e)),
        None => None,
    }
}

/// A copy of the rows of a VALUES list.
pub fn clone_rows(rows: &Vec<Vec<PlannedExpression>>) -> (res: Vec<Vec<PlannedExpression>>)
    ensures
        rows_view(res@) == rows_view(rows@),
{
    let mut res: Vec<Vec<PlannedExpression>> = Vec::new();
    let mut i: usize = 0;
    while i < rows.len()
        invariant
            i <= rows@.len(),
            res@.len() == i,
            forall|j: int| 0 <= j < i ==> #[trigger] res@[j]@ == rows@[j]@,
        decreases rows@.len() - i,
    {
        res.push(clone_exprs(rows[i].as_slice()));
        i = i + 1;
    }
    assert(rows_view(res@) =~= rows_view(rows@));
    res
}

/// A copy of a plan.
pub fn clone_plan(p: &PlanNode) -> (res: PlanNode)
    ensures
        res@ == p@,
    decreases p.depth(),
{
    let children = p.children();
    let mut cloned: Vec<PlanNode> = Vec::new();
    let mut i: usize = 0;
    while i < children.len()
        invariant
            i <= children@.len(),
            children@.len() == p.spec_children().len(),
            forall|j: int| 0 <= j < children@.len() ==> *#[trigger] children@[j] == p.spec_children()[j],
            forall|j: int| 0 <= j < children@.len() ==> (#[trigger] children@[j]).depth() < p.depth(),
            cloned@.len() == i,
            forall|j: int| 0 <= j < i ==> #[trigger] cloned@[j]@ == p.spec_children()[j]@,
        decreases children@.len() - i,
    {
        cloned.push(clone_plan(children[i]));
        i = i + 1;
    }
    let ghost cv = cloned@.map_values(|c: PlanNode| c@);
    let res = p.clone_with_children(cloned);
    proof {
        lemma_with_own_children(p, cv);
    }
    res
}

/// Replacing the children of a node by copies of them gives back the node.
proof fn lemma_with_own_children(p: &PlanNode, cv: Seq<PlanView>)
    requires
        cv.len() == p.spec_children().len(),
        forall|j: int| 0 <= j < cv.len() ==> #[trigger] cv[j] == p.spec_children()[j]@,
    ensures
        with_children(p@, cv) == p@,
{
    match p.kind {
        PlanNodeKind::NestedLoopJoin(q) => {
            assert(cv[0] == p.spec_children()[0]@);
            assert(cv[1] == p.spec_children()[1]@);
        },
        PlanNodeKind::SeqScan(_) | PlanNodeKind::Values(_) | PlanNodeKind::CreateTable(_) => {},
        _ => {
            assert(cv[0] == p.spec_children()[0]@);
        },
    }
}


// ---------------------------------------------------------------------
// Output schemas
// ---------------------------------------------------------------------

/// A column as planning sees it: its name, type and size.
pub open spec fn desc(c: Column) -> (Seq<char>, SqlType, ColumnSize) {
    (c.name@, c.sql_type, c.size)
}

pub open spec fn descs(cols: Seq<Column>) -> Seq<(Seq<char>, SqlType, ColumnSize)> {
    cols.map_values(|c: Column| desc(c))
}

/// The column named `name` that holds values of type `t`.
pub open spec fn type_desc(t: ExpressionType, name: Seq<char>) -> (Seq<char>, SqlType, ColumnSize) {
    match t.sql_type {
        SqlType::Varchar => (name, SqlType::Varchar, ColumnSize::Variable(
            match t.varchar_size {
                Some(s) => s,
                None => 0,
            },
        )),
        st => (name, st, ColumnSize::Inline(spec_inline_size(st) as usize)),
    }
}

/// The rows a scan of a table produces: its columns, each named
/// `<bound table name>.<column name>`.
pub open spec fn scan_descs(t: BoundBaseTableRef) -> Seq<(Seq<char>, SqlType, ColumnSize)> {
    t.schema.columns@.map_values(|c: Column| (bound_name(t)@ + seq!['.'] + c.name@, c.sql_type, c.size))
}

/// A schema that a plan can be built on: well-formed columns, few enough
/// for their layout to fit.
pub open spec fn schema_ok(s: Schema) -> bool {
    all_well_formed(s.columns@) && columns_fit(s.columns@.len())
}

pub proof fn lemma_laid_out_descs(cols: Seq<Column>, s: Schema)
    requires
        laid_out(cols, s),
        all_well_formed(cols),
    ensures
        descs(s.columns@) == descs(cols),
        all_well_formed(s.columns@),
{
    assert(descs(s.columns@) =~= descs(cols));
    assert forall|i: int| 0 <= i < s.columns@.len() implies column_well_formed(#[trigger] s.columns@[i]) by {
        assert(column_well_formed(cols[i]));
    }
}

impl SeqScanPlan {
    /// The schema of a scan of `base_table`.
    pub fn infer_scan_schema(base_table: &BoundBaseTableRef) -> (res: Schema)
        requires
            schema_ok(base_table.schema),
        ensures
            descs(res.columns@) == scan_descs(*base_table),
            schema_ok(res),
            laid_out(res.columns@, res),
    {
        proof {
            reveal_strlit(".");
            assert("."@ =~= seq!['.']);
        }
        let name = base_table.bound_tbl_name();
        let cols = &base_table.schema.columns;
        let mut columns: Vec<Column> = Vec::new();
        let mut i: usize = 0;
        while i < cols.len()
            invariant
                i <= cols@.len(),
                name@ == bound_name(*base_table)@,
                "."@ == seq!['.'],
                *cols == base_table.schema.columns,
                schema_ok(base_table.schema),
                columns@.len() == i,
                forall|k: int| 0 <= k < i ==> desc(#[trigger] columns@[k]) == scan_descs(*base_table)[k],
                all_well_formed(columns@),
            decreases cols@.len() - i,
        {
            let col = &cols[i];
            assert(column_well_formed(cols@[index_of(i)]));
            columns.push(col.with_new_name(concat3(name, ".", col.name.as_str())));
            i = i + 1;
        }
        let res = Schema::new(columns.as_slice());
        proof {
            lemma_laid_out_descs(columns@, res);
            lemma_laid_out_again(columns@, res);
            assert(descs(columns@) =~= scan_descs(*base_table));
        }
        res
    }
}

impl ProjectionPlan {
    /// The schema of rows of the values of `exprs`, each column unnamed.
    pub fn infer_proj_schema(exprs: &[PlannedExpression]) -> (res: Schema)
        requires
            columns_fit(exprs@.len()),
        ensures
            descs(res.columns@) == exprs@.map_values(|e: PlannedExpression| type_desc(e.return_type, "<unnamed>"@)),
            schema_ok(res),
            laid_out(res.columns@, res),
    {
        proof { reveal_strlit("<unnamed>"); }
        let mut columns: Vec<Column> = Vec::new();
        let mut i: usize = 0;
        while i < exprs.len()
            invariant
                i <= exprs@.len(),
                columns@.len() == i,
                forall|k: int| 0 <= k < i ==> desc(#[trigger] columns@[k]) == type_desc(exprs@[k].return_type, "<unnamed>"@),
                all_well_formed(columns@),
            decreases exprs@.len() - i,
        {
            let c = exprs[i].return_type.to_column("<unnamed>".to_string());
            columns.push(c);
            i = i + 1;
        }
        let res = Schema::new(columns.as_slice());
        proof {
            lemma_laid_out_descs(columns@, res);
            lemma_laid_out_again(columns@, res);
            assert(descs(columns@) =~= exprs@.map_values(|e: PlannedExpression| type_desc(e.return_type, "<unnamed>"@)));
        }
        res
    }

    /// `schema` with its columns renamed, in order.
    pub fn rename_schema(schema: &Schema, names: &[String]) -> (res: Schema)
        requires
            schema.columns@.len() == names@.len(),
            schema_ok(*schema),
        ensures
            descs(res.columns@) == Seq::new(names@.len(), |i: int| (names@[i]@, schema.columns@[i].sql_type, schema.columns@[i].size)),
            schema_ok(res),
            laid_out(res.columns@, res),
            laid_out(schema.columns@, *schema) ==> {
                &&& res.inlined_storage_size == schema.inlined_storage_size
                &&& res.uninlined_columns@ == schema.uninlined_columns@
                &&& forall|i: int| 0 <= i < names@.len() ==> (#[trigger] res.columns@[i]).value_offset == schema.columns@[i].value_offset
            },
    {
        let mut columns: Vec<Column> = Vec::new();
        let mut i: usize = 0;
        while i < names.len()
            invariant
                i <= names@.len(),
                schema.columns@.len() == names@.len(),
                schema_ok(*schema),
                columns@.len() == i,
                forall|k: int| 0 <= k < i ==> desc(#[trigger] columns@[k]) == (names@[k]@, schema.columns@[k].sql_type, schema.columns@[k].size),
                all_well_formed(columns@),
            decreases names@.len() - i,
        {
            assert(column_well_formed(schema.columns@[index_of(i)]));
            columns.push(schema.columns[i].with_new_name(names[i].clone()));
            i = i + 1;
        }
        let res = Schema::new(columns.as_slice());
        proof {
            lemma_laid_out_descs(columns@, res);
            lemma_laid_out_again(columns@, res);
            assert(descs(columns@) =~= Seq::new(names@.len(), |i: int| (names@[i]@, schema.columns@[i].sql_type, schema.columns@[i].size)));
            let rc = res.columns@;
            let sc = schema.columns@;
            assert forall|i: int| 0 <= i < rc.len() implies (#[trigger] rc[i]).sql_type == sc[i].sql_type && rc[i].size == sc[i].size by {
                assert(desc(rc[i]) == descs(rc)[i]);
            }
            if laid_out(sc, *schema) {
                lemma_same_shape_prefixes(rc, sc, rc.len() as int);
                assert forall|i: int| 0 <= i < names@.len() implies (#[trigger] rc[i]).value_offset == sc[i].value_offset by {
                    lemma_same_shape_prefixes(rc, sc, i);
                    assert(rc[i] == placed(rc[i], null_bitmap_bytes(rc.len()) + inline_prefix(rc, i)));
                    assert(sc[i] == placed(sc[i], null_bitmap_bytes(sc.len()) + inline_prefix(sc, i)));
                }
            }
        }
        res
    }
}

impl NestedLoopJoinPlan {
    /// The schema of joined rows: the left columns, then the right ones.
    pub fn infer_join_schema(left: &PlanNode, right: &PlanNode) -> (res: Schema)
        requires
            schema_ok(left.output_schema),
            schema_ok(right.output_schema),
            columns_fit(left.output_schema.columns@.len() + right.output_schema.columns@.len()),
        ensures
            descs(res.columns@) == descs(left.output_schema.columns@) + descs(right.output_schema.columns@),
            schema_ok(res),
            laid_out(res.columns@, res),
    {
        let mut columns = clone_columns(left.output_schema.columns.as_slice());
        let r = &right.output_schema.columns;
        let ghost l = left.output_schema.columns@;
        let mut i: usize = 0;
        while i < r.len()
            invariant
                i <= r@.len(),
                *r == right.output_schema.columns,
                schema_ok(left.output_schema),
                schema_ok(right.output_schema),
                l == left.output_schema.columns@,
                columns@ == l + r@.subrange(0, index_of(i)),
            decreases r@.len() - i,
        {
            columns.push(r[i].clone());
            i = i + 1;
            assert(columns@ =~= l + r@.subrange(0, index_of(i)));
        }
        assert(columns@ =~= l + r@);
        assert(all_well_formed(columns@)) by {
            assert forall|k: int| 0 <= k < columns@.len() implies column_well_formed(#[trigger] columns@[k]) by {
                if k < l.len() {
                    assert(column_well_formed(l[k]));
                } else {
                    assert(column_well_formed(r@[k - l.len()]));
                }
            }
        }
        let res = Schema::new(columns.as_slice());
        proof {
            lemma_laid_out_descs(columns@, res);
            lemma_laid_out_again(columns@, res);
            assert(descs(columns@) =~= descs(l) + descs(r@));
        }
        res
    }
}

} // verus!
