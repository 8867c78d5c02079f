use vstd::prelude::*;
use crate::catalog::catalog::Catalog;
use crate::catalog::column::{Column, ColumnSize};
use crate::catalog::error::{CatalogError, TableIdentifier};
use crate::catalog::schema::{Schema, columns_fit};
use crate::catalog::types::SqlType;
use crate::common::position::index_of;
use crate::common::strings::{concat3, decimal, str_eq, usize_to_string};
use crate::query::binder::expression::{BoundExpression, ColumnRef, column_ref_text};
use crate::query::binder::statement::{BoundDelete, BoundInsert, BoundInsertSource, BoundSelect, BoundStatement, BoundUpdate};
use crate::query::binder::table_ref::{BoundBaseTableRef, BoundExpressionListRef, BoundTableRef};
use crate::query::expression::{BinaryOperator, UnaryOperator};
use crate::query::planner::error::PlannerError;
use crate::query::planner::expression::{
    ArithmeticExpression, ArithmeticType, ColumnValueExpression, ComparisonExpression, ComparisonType,
    ConstantValueExpression, ExpressionType, LogicExpression, LogicType, NegateExpression, NotExpression,
    NullCheckExpression, NullCheckType, PlannedExpression, PlannedExpressionKind, spec_type_of_value,
};
use crate::query::planner::plan::{
    DeletePlan, FilterPlan, InsertPlan, PlanNode, PlanNodeKind, ProjectionPlan, SeqScanPlan, UpdatePlan,
    ValuesPlan, desc, descs, scan_descs, schema_ok, type_desc,
};

verus! {

// ---------------------------------------------------------------------
// What planning an expression means
// ---------------------------------------------------------------------

/// Why planning failed.
pub enum PlanFailure {
    TableNotFound(Seq<char>),
    Ambiguous(Seq<char>),
    InsertMismatch,
    UpdateMismatch,
}

/// `e` reports the failure `f`.
pub open spec fn reports(e: PlannerError, f: PlanFailure) -> bool {
    match (e, f) {
        (PlannerError::Catalog(CatalogError::TableNotFound(TableIdentifier::Name(n))), PlanFailure::TableNotFound(m)) => n@ == m,
        (PlannerError::AmbiguousColumn(n), PlanFailure::Ambiguous(m)) => n@ == m,
        (PlannerError::InsertSchemaMismatch, PlanFailure::InsertMismatch) => true,
        (PlannerError::UpdateSchemaMismatch, PlanFailure::UpdateMismatch) => true,
        _ => false,
    }
}

/// The type of the values of a column.
pub open spec fn type_of_desc(d: (Seq<char>, SqlType, ColumnSize)) -> ExpressionType {
    ExpressionType {
        sql_type: d.1,
        varchar_size: if d.1 == SqlType::Varchar {
            Some(match d.2 {
                ColumnSize::Inline(s) => s,
                ColumnSize::Variable(s) => s,
            })
        } else {
            None
        },
    }
}

/// The columns among the first `n` of an input named exactly `name`.
pub open spec fn matches_in_cols(cols: Seq<(Seq<char>, SqlType, ColumnSize)>, name: Seq<char>, tuple_idx: usize, n: int) -> Seq<(ColumnValueExpression, ExpressionType)>
    decreases n,
{
    if n <= 0 {
        Seq::empty()
    } else {
        let prev = matches_in_cols(cols, name, tuple_idx, n - 1);
        if cols[n - 1].0 == name {
            prev.push((ColumnValueExpression { tuple_idx, col_idx: (n - 1) as usize }, type_of_desc(cols[n - 1])))
        } else {
            prev
        }
    }
}

/// The columns of one or two inputs named exactly `name`.
pub open spec fn matches_in(children: Seq<Seq<(Seq<char>, SqlType, ColumnSize)>>, name: Seq<char>) -> Seq<(ColumnValueExpression, ExpressionType)> {
    if children.len() == 1 {
        matches_in_cols(children[0], name, 0, children[0].len() as int)
    } else if children.len() == 2 {
        matches_in_cols(children[0], name, 0, children[0].len() as int) + matches_in_cols(children[1], name, 1, children[1].len() as int)
    } else {
        Seq::empty()
    }
}

/// Every column reference of `e` names a column of one or two inputs.
pub open spec fn refs_resolve(e: BoundExpression, children: Seq<Seq<(Seq<char>, SqlType, ColumnSize)>>) -> bool
    decreases e,
{
    match e {
        BoundExpression::Literal(_) => true,
        BoundExpression::Column(c) => (children.len() == 1 || children.len() == 2) && matches_in(children, column_ref_text(c)).len() >= 1,
        BoundExpression::BinaryOp { left, right, .. } => refs_resolve(*left, children) && refs_resolve(*right, children),
        BoundExpression::UnaryOp { expr, .. } => refs_resolve(*expr, children),
    }
}

pub open spec fn arithmetic(l: PlannedExpression, r: PlannedExpression, t: ArithmeticType) -> PlannedExpression {
    PlannedExpression {
        return_type: l.return_type,
        kind: PlannedExpressionKind::Arithmetic(ArithmeticExpression { left: Box::new(l), arithmetic_type: t, right: Box::new(r) }),
    }
}

pub open spec fn comparison(l: PlannedExpression, r: PlannedExpression, t: ComparisonType) -> PlannedExpression {
    PlannedExpression {
        return_type: ExpressionType { sql_type: SqlType::Boolean, varchar_size: None },
        kind: PlannedExpressionKind::Comparison(ComparisonExpression { left: Box::new(l), comparison_type: t, right: Box::new(r) }),
    }
}

pub open spec fn logic(l: PlannedExpression, r: PlannedExpression, t: LogicType) -> PlannedExpression {
    PlannedExpression {
        return_type: ExpressionType { sql_type: SqlType::Boolean, varchar_size: None },
        kind: PlannedExpressionKind::Logic(LogicExpression { left: Box::new(l), logic_type: t, right: Box::new(r) }),
    }
}

/// The planned form of a binary operator applied to planned operands.
pub open spec fn binary_expr(l: PlannedExpression, op: BinaryOperator, r: PlannedExpression) -> PlannedExpression {
    match op {
        BinaryOperator::Plus => arithmetic(l, r, ArithmeticType::Plus),
        BinaryOperator::Minus => arithmetic(l, r, ArithmeticType::Minus),
        BinaryOperator::Eq => comparison(l, r, ComparisonType::Eq),
        BinaryOperator::NotEq => comparison(l, r, ComparisonType::NotEq),
        BinaryOperator::Lt => comparison(l, r, ComparisonType::LessThan),
        BinaryOperator::LtEq => comparison(l, r, ComparisonType::LessThanOrEqual),
        BinaryOperator::Gt => comparison(l, r, ComparisonType::GreaterThan),
        BinaryOperator::GtEq => comparison(l, r, ComparisonType::GreaterThanOrEqual),
        BinaryOperator::And => logic(l, r, LogicType::And),
        BinaryOperator::Or => logic(l, r, LogicType::Or),
    }
}

/// The planned form of a unary operator applied to a planned operand.
pub open spec fn unary_expr(x: PlannedExpression, op: UnaryOperator) -> PlannedExpression {
    let bool_type = ExpressionType { sql_type: SqlType::Boolean, varchar_size: None };
    match op {
        UnaryOperator::Not => PlannedExpression { return_type: bool_type, kind: PlannedExpressionKind::Not(NotExpression { expr: Box::new(x) }) },
        UnaryOperator::Neg => PlannedExpression { return_type: x.return_type, kind: PlannedExpressionKind::Negate(NegateExpression { expr: Box::new(x) }) },
        UnaryOperator::IsNull => PlannedExpression {
            return_type: bool_type,
            kind: PlannedExpressionKind::NullCheck(NullCheckExpression { expr: Box::new(x), null_check_type: NullCheckType::IsNull }),
        },
        UnaryOperator::IsNotNull => PlannedExpression {
            return_type: bool_type,
            kind: PlannedExpressionKind::NullCheck(NullCheckExpression { expr: Box::new(x), null_check_type: NullCheckType::IsNotNull }),
        },
    }
}

/// Planning an expression over the rows of its inputs: a column reference
/// becomes the position of the one column of that name, and is named after
/// it; literals and operators carry no name.
pub open spec fn plan_expr(e: BoundExpression, children: Seq<Seq<(Seq<char>, SqlType, ColumnSize)>>) -> Result<(Option<Seq<char>>, PlannedExpression), PlanFailure>
    decreases e,
{
    match e {
        BoundExpression::Literal(v) => Ok((None, PlannedExpression {
            return_type: spec_type_of_value(v),
            kind: PlannedExpressionKind::ConstantValue(ConstantValueExpression { value: v }),
        })),
        BoundExpression::Column(c) => {
            let ms = matches_in(children, column_ref_text(c));
            if ms.len() == 1 {
                Ok((Some(column_ref_text(c)), PlannedExpression { return_type: ms[0].1, kind: PlannedExpressionKind::ColumnValue(ms[0].0) }))
            } else {
                Err(PlanFailure::Ambiguous(column_ref_text(c)))
            }
        },
        BoundExpression::BinaryOp { left, op, right } => match plan_expr(*left, children) {
            Err(f) => Err(f),
            Ok((_, l)) => match plan_expr(*right, children) {
                Err(f) => Err(f),
                Ok((_, r)) => Ok((None, binary_expr(l, op, r))),
            },
        },
        BoundExpression::UnaryOp { expr, op } => match plan_expr(*expr, children) {
            Err(f) => Err(f),
            Ok((_, x)) => Ok((None, unary_expr(x, op))),
        },
    }
}

pub open spec fn opt_view(n: Option<String>) -> Option<Seq<char>> {
    match n {
        Some(s) => Some(s@),
        None => None,
    }
}

/// An outcome of planning an expression agrees with what it means.
pub open spec fn plan_agrees(res: Result<(Option<String>, PlannedExpression), PlannerError>, s: Result<(Option<Seq<char>>, PlannedExpression), PlanFailure>) -> bool {
    match (res, s) {
        (Ok((n, e)), Ok((sn, se))) => e == se && opt_view(n) == sn,
        (Err(e), Err(f)) => reports(e, f),
        _ => false,
    }
}

/// The output columns of the inputs of an expression.
pub open spec fn children_descs(children: Seq<&PlanNode>) -> Seq<Seq<(Seq<char>, SqlType, ColumnSize)>> {
    children.map_values(|p: &PlanNode| descs(p.output_schema.columns@))
}

/// Planning the first `n` expressions of a list.
pub open spec fn plan_list(es: Seq<BoundExpression>, cd: Seq<Seq<(Seq<char>, SqlType, ColumnSize)>>, n: int) -> Result<Seq<(Option<Seq<char>>, PlannedExpression)>, PlanFailure>
    decreases n,
{
    if n <= 0 {
        Ok(Seq::empty())
    } else {
        match plan_list(es, cd, n - 1) {
            Err(f) => Err(f),
            Ok(prev) => match plan_expr(es[n - 1], cd) {
                Err(f) => Err(f),
                Ok(x) => Ok(prev.push(x)),
            },
        }
    }
}

pub open spec fn exprs_of(l: Seq<(Option<Seq<char>>, PlannedExpression)>) -> Seq<PlannedExpression> {
    l.map_values(|x: (Option<Seq<char>>, PlannedExpression)| x.1)
}

/// The names of projected columns: that of the column referred to, or
/// `__unnamed#<position>`.
pub open spec fn proj_names(l: Seq<(Option<Seq<char>>, PlannedExpression)>) -> Seq<Seq<char>> {
    Seq::new(l.len(), |i: int| match l[i].0 {
        Some(n) => n,
        None => "__unnamed"@ + "#"@ + decimal(i as nat),
    })
}

pub open spec fn proj_descs(l: Seq<(Option<Seq<char>>, PlannedExpression)>) -> Seq<(Seq<char>, SqlType, ColumnSize)> {
    Seq::new(l.len(), |i: int| type_desc(l[i].1.return_type, proj_names(l)[i]))
}

/// `p` is a scan of the table `t`, found in the catalog.
pub open spec fn scans(cat: Catalog, t: BoundBaseTableRef, p: PlanNode) -> bool {
    match cat.table_named(t.table_name@) {
        None => false,
        Some(i) => match p.kind {
            PlanNodeKind::SeqScan(s) => {
                &&& s.table_name@ == t.table_name@
                &&& s.table_oid == cat.tables@[i].table_oid
                &&& s.filter_predicate is None
                &&& descs(p.output_schema.columns@) == scan_descs(t)
                &&& schema_ok(p.output_schema)
            },
            _ => false,
        },
    }
}

/// Planning the WHERE clause `w` over a scan of `t`.
pub open spec fn plan_where(t: BoundBaseTableRef, w: Option<BoundExpression>) -> Result<Option<PlannedExpression>, PlanFailure> {
    match w {
        None => Ok(None),
        Some(w) => match plan_expr(w, seq![scan_descs(t)]) {
            Err(f) => Err(f),
            Ok((_, e)) => Ok(Some(e)),
        },
    }
}

/// `p` is a scan of `t`, filtered by `w` where there is one.
pub open spec fn filtered(cat: Catalog, t: BoundBaseTableRef, w: Option<BoundExpression>, p: PlanNode) -> bool {
    match plan_where(t, w) {
        Ok(None) => scans(cat, t, p),
        Ok(Some(e)) => match p.kind {
            PlanNodeKind::Filter(f) => {
                &&& scans(cat, t, *f.child)
                &&& p.output_schema@ == f.child.output_schema@
                &&& f.predicate == e
            },
            _ => false,
        },
        Err(_) => false,
    }
}

/// Where planning a scan of `t` filtered by `w` fails.
pub open spec fn scan_failure(cat: Catalog, t: BoundBaseTableRef, w: Option<BoundExpression>) -> Option<PlanFailure> {
    if cat.table_named(t.table_name@) is None {
        Some(PlanFailure::TableNotFound(t.table_name@))
    } else {
        match plan_where(t, w) {
            Err(f) => Some(f),
            Ok(_) => None,
        }
    }
}

pub open spec fn base_of(t: BoundTableRef) -> BoundBaseTableRef {
    match t {
        BoundTableRef::BaseTable(b) => b,
        _ => arbitrary(),
    }
}

/// Planning the select list of a SELECT over its (filtered) table.
pub open spec fn select_list(cat: Catalog, stmt: BoundSelect) -> Result<Seq<(Option<Seq<char>>, PlannedExpression)>, PlanFailure> {
    let t = base_of(stmt.table);
    match scan_failure(cat, t, stmt.where_) {
        Some(f) => Err(f),
        None => plan_list(stmt.projection@, seq![scan_descs(t)], stmt.projection@.len() as int),
    }
}

/// A SELECT the planner handles: one table, whose columns every column
/// reference names.
pub open spec fn select_plannable(stmt: BoundSelect) -> bool {
    let t = base_of(stmt.table);
    &&& stmt.table is BaseTable
    &&& schema_ok(t.schema)
    &&& columns_fit(stmt.projection@.len())
    &&& match stmt.where_ {
        Some(w) => refs_resolve(w, seq![scan_descs(t)]),
        None => true,
    }
    &&& forall|i: int| 0 <= i < stmt.projection@.len() ==> refs_resolve(#[trigger] stmt.projection@[i], seq![scan_descs(t)])
}

/// `p` is the plan of the SELECT: a projection over the filtered scan.
pub open spec fn select_planned(cat: Catalog, stmt: BoundSelect, p: PlanNode) -> bool {
    match (select_list(cat, stmt), p.kind) {
        (Ok(l), PlanNodeKind::Projection(pp)) => {
            &&& filtered(cat, base_of(stmt.table), stmt.where_, *pp.child)
            &&& pp.expressions@ == exprs_of(l)
            &&& descs(p.output_schema.columns@) == proj_descs(l)
        },
        _ => false,
    }
}

/// The plan of a VALUES list: every expression planned without inputs.
pub open spec fn plan_row(row: Seq<BoundExpression>) -> Seq<PlannedExpression> {
    match plan_list(row, Seq::empty(), row.len() as int) {
        Ok(l) => exprs_of(l),
        Err(_) => Seq::empty(),
    }
}

/// The columns of a VALUES list, typed after its first row and named
/// `<identifier>.<position>`.
pub open spec fn values_descs(l: BoundExpressionListRef) -> Seq<(Seq<char>, SqlType, ColumnSize)> {
    let row = plan_row(l.values@[0]@);
    Seq::new(row.len(), |i: int| type_desc(row[i].return_type, l.identifier@ + "."@ + decimal(i as nat)))
}

pub open spec fn values_planned(l: BoundExpressionListRef, p: PlanNode) -> bool {
    match p.kind {
        PlanNodeKind::Values(v) => {
            &&& v.rows@.len() == l.values@.len()
            &&& forall|r: int| 0 <= r < l.values@.len() ==> (#[trigger] v.rows@[r])@ == plan_row(l.values@[r]@)
            &&& descs(p.output_schema.columns@) == values_descs(l)
        },
        _ => false,
    }
}

/// A VALUES list the planner handles: at least one row, no column
/// references.
pub open spec fn values_plannable(l: BoundExpressionListRef) -> bool {
    &&& l.values@.len() > 0
    &&& columns_fit(l.values@[0]@.len())
    &&& forall|r: int, i: int| 0 <= r < l.values@.len() && 0 <= i < l.values@[r]@.len()
        ==> refs_resolve(#[trigger] l.values@[r]@[i], Seq::empty())
}

/// The column part of a column reference.
pub open spec fn ref_column(c: ColumnRef) -> Seq<char> {
    match c {
        ColumnRef::Unqualified { column } => column@,
        ColumnRef::TableQualified { column, .. } => column@,
        ColumnRef::SchemaTableQualified { column, .. } => column@,
    }
}

/// The first of the first `n` columns named exactly `name`.
pub open spec fn first_exact(cols: Seq<Column>, name: Seq<char>, n: int) -> Option<int>
    decreases n,
{
    if n <= 0 {
        None
    } else {
        match first_exact(cols, name, n - 1) {
            Some(k) => Some(k),
            None => if cols[n - 1].name@ == name { Some(n - 1) } else { None },
        }
    }
}

pub open spec fn size_of_desc(s: ColumnSize) -> nat {
    match s {
        ColumnSize::Inline(x) => x as nat,
        ColumnSize::Variable(x) => x as nat,
    }
}

/// The table columns the first `n` columns of an INSERT write: each of the
/// same type as the value written, a VARCHAR at least as long.
pub open spec fn insert_targets(refs: Seq<ColumnRef>, table_cols: Seq<Column>, child: Seq<(Seq<char>, SqlType, ColumnSize)>, n: int) -> Result<Seq<usize>, PlanFailure>
    decreases n,
{
    if n <= 0 {
        Ok(Seq::empty())
    } else {
        match insert_targets(refs, table_cols, child, n - 1) {
            Err(f) => Err(f),
            Ok(prev) => {
                let k = first_exact(table_cols, ref_column(refs[n - 1]), table_cols.len() as int).unwrap();
                let target = table_cols[k];
                let value = child[n - 1];
                if target.sql_type != value.1 {
                    Err(PlanFailure::InsertMismatch)
                } else if target.sql_type == SqlType::Varchar && size_of_desc(value.2) > size_of_desc(target.size) {
                    Err(PlanFailure::InsertMismatch)
                } else {
                    Ok(prev.push(k as usize))
                }
            },
        }
    }
}

/// The columns of the rows an INSERT's source produces.
pub open spec fn source_descs(cat: Catalog, src: BoundInsertSource) -> Result<Seq<(Seq<char>, SqlType, ColumnSize)>, PlanFailure> {
    match src {
        BoundInsertSource::Values(l) => Ok(values_descs(l)),
        BoundInsertSource::Select(s) => match select_list(cat, s) {
            Err(f) => Err(f),
            Ok(l) => Ok(proj_descs(l)),
        },
    }
}

/// A value of type `t` may be written to column `target`: the same type,
/// and a VARCHAR no longer than the column's.
pub open spec fn value_fits(target: Column, t: ExpressionType) -> bool {
    let d = type_desc(t, Seq::empty());
    &&& target.sql_type == d.1
    &&& !(target.sql_type == SqlType::Varchar && size_of_desc(d.2) > size_of_desc(target.size))
}

/// A planned row writes one value to each target column, each fitting it.
pub open spec fn row_fits(row: Seq<PlannedExpression>, table_cols: Seq<Column>, targets: Seq<usize>) -> bool {
    &&& row.len() == targets.len()
    &&& forall|i: int| 0 <= i < row.len() ==> value_fits(table_cols[targets[i] as int], (#[trigger] row[i]).return_type)
}

/// Every row of a VALUES list fits the target columns.
pub open spec fn rows_fit(l: BoundExpressionListRef, table_cols: Seq<Column>, targets: Seq<usize>) -> bool {
    forall|r: int| 0 <= r < l.values@.len() ==> row_fits(#[trigger] plan_row(l.values@[r]@), table_cols, targets)
}

/// The target columns of an INSERT, or why it is refused: the source's
/// columns must match the targets in number and type, and so must every
/// row of a VALUES list.
pub open spec fn insert_result(cat: Catalog, stmt: BoundInsert) -> Result<Seq<usize>, PlanFailure> {
    match source_descs(cat, stmt.source) {
        Err(f) => Err(f),
        Ok(cd) => if stmt.columns@.len() != cd.len() {
            Err(PlanFailure::InsertMismatch)
        } else {
            match insert_targets(stmt.columns@, stmt.table.schema.columns@, cd, cd.len() as int) {
                Err(f) => Err(f),
                Ok(t) => match stmt.source {
                    BoundInsertSource::Values(l) => if rows_fit(l, stmt.table.schema.columns@, t) {
                        Ok(t)
                    } else {
                        Err(PlanFailure::InsertMismatch)
                    },
                    BoundInsertSource::Select(_) => Ok(t),
                },
            }
        },
    }
}

pub open spec fn source_plannable(src: BoundInsertSource) -> bool {
    match src {
        BoundInsertSource::Values(l) => values_plannable(l),
        BoundInsertSource::Select(s) => select_plannable(s),
    }
}

pub open spec fn source_planned(cat: Catalog, src: BoundInsertSource, p: PlanNode) -> bool {
    match src {
        BoundInsertSource::Values(l) => values_planned(l, p),
        BoundInsertSource::Select(s) => select_planned(cat, s, p),
    }
}

/// An INSERT the planner handles: a source it handles, and target columns
/// that are columns of the table.
pub open spec fn insert_plannable(stmt: BoundInsert) -> bool {
    &&& source_plannable(stmt.source)
    &&& forall|i: int| 0 <= i < stmt.columns@.len() ==>
        first_exact(stmt.table.schema.columns@, ref_column(#[trigger] stmt.columns@[i]), stmt.table.schema.columns@.len() as int) is Some
}

/// The schema of a statement that reports how many rows it changed.
pub open spec fn count_descs(name: Seq<char>) -> Seq<(Seq<char>, SqlType, ColumnSize)> {
    seq![(name, SqlType::Integer, ColumnSize::Inline(4))]
}

pub open spec fn insert_planned(cat: Catalog, stmt: BoundInsert, p: PlanNode) -> bool {
    match (insert_result(cat, stmt), p.kind) {
        (Ok(targets), PlanNodeKind::Insert(ip)) => {
            &&& ip.table_name@ == stmt.table.table_name@
            &&& ip.table_oid == stmt.table.table_oid
            &&& ip.table_schema@ == stmt.table.schema@
            &&& ip.target_col_idxs@ == targets
            &&& source_planned(cat, stmt.source, *ip.child)
            &&& descs(p.output_schema.columns@) == count_descs("__oxtub_internal.insert_rows"@)
        },
        _ => false,
    }
}

/// The expressions an UPDATE starts from: every column of its input as it
/// is.
pub open spec fn init_exprs(d: Seq<(Seq<char>, SqlType, ColumnSize)>) -> Seq<PlannedExpression> {
    Seq::new(d.len(), |i: int| PlannedExpression {
        return_type: type_of_desc(d[i]),
        kind: PlannedExpressionKind::ColumnValue(ColumnValueExpression { tuple_idx: 0, col_idx: i as usize }),
    })
}

/// The expressions of an UPDATE after its first `n` assignments: each
/// replaces the expression of the column it assigns, which must keep its
/// type.
pub open spec fn update_targets(targets: Seq<(ColumnRef, BoundExpression)>, cd: Seq<Seq<(Seq<char>, SqlType, ColumnSize)>>, init: Seq<PlannedExpression>, n: int) -> Result<Seq<PlannedExpression>, PlanFailure>
    decreases n,
{
    if n <= 0 {
        Ok(init)
    } else {
        match update_targets(targets, cd, init, n - 1) {
            Err(f) => Err(f),
            Ok(prev) => match plan_expr(targets[n - 1].1, cd) {
                Err(f) => Err(f),
                Ok((_, te)) => {
                    let ms = matches_in(cd, column_ref_text(targets[n - 1].0));
                    if ms.len() != 1 {
                        Err(PlanFailure::Ambiguous(column_ref_text(targets[n - 1].0)))
                    } else if ms[0].1.sql_type != te.return_type.sql_type {
                        Err(PlanFailure::UpdateMismatch)
                    } else {
                        Ok(prev.update(ms[0].0.col_idx as int, te))
                    }
                },
            },
        }
    }
}

/// The column that assignment `k` of an UPDATE writes: the one its target
/// names.
pub open spec fn assigned_column(targets: Seq<(ColumnRef, BoundExpression)>, cd: Seq<Seq<(Seq<char>, SqlType, ColumnSize)>>, k: int) -> int {
    matches_in(cd, column_ref_text(targets[k].0))[0].0.col_idx as int
}

/// Planning the first `n` assignments keeps one expression per column.
pub proof fn lemma_update_targets_len(targets: Seq<(ColumnRef, BoundExpression)>, cd: Seq<Seq<(Seq<char>, SqlType, ColumnSize)>>, init: Seq<PlannedExpression>, n: int)
    requires
        n <= targets.len(),
        update_targets(targets, cd, init, n) is Ok,
        forall|j: int| 0 <= j < n ==> 0 <= #[trigger] assigned_column(targets, cd, j) < init.len(),
    ensures
        update_targets(targets, cd, init, n)->Ok_0.len() == init.len(),
    decreases n,
{
    if n > 0 {
        lemma_update_targets_len(targets, cd, init, n - 1);
        assert(0 <= assigned_column(targets, cd, n - 1) < init.len());
    }
}

/// In an UPDATE every assignment counts: a column assigned in the SET list
/// gets the planned form of the expression of its last assignment.
pub proof fn lemma_update_last_assignment_wins(targets: Seq<(ColumnRef, BoundExpression)>, cd: Seq<Seq<(Seq<char>, SqlType, ColumnSize)>>, init: Seq<PlannedExpression>, n: int, k: int)
    requires
        0 <= k < n <= targets.len(),
        update_targets(targets, cd, init, n) is Ok,
        forall|j: int| 0 <= j < n ==> 0 <= #[trigger] assigned_column(targets, cd, j) < init.len(),
        forall|j: int| k < j < n ==> #[trigger] assigned_column(targets, cd, j) != assigned_column(targets, cd, k),
    ensures
        plan_expr(targets[k].1, cd) is Ok,
        update_targets(targets, cd, init, n)->Ok_0[assigned_column(targets, cd, k)] == plan_expr(targets[k].1, cd)->Ok_0.1,
    decreases n,
{
    lemma_update_targets_len(targets, cd, init, n - 1);
    assert(0 <= assigned_column(targets, cd, n - 1) < init.len());
    if k < n - 1 {
        lemma_update_last_assignment_wins(targets, cd, init, n - 1, k);
        assert(assigned_column(targets, cd, n - 1) != assigned_column(targets, cd, k));
    }
}

/// In an UPDATE a column that no assignment of the SET list writes keeps
/// the expression it started with (its own value).
pub proof fn lemma_update_unassigned_kept(targets: Seq<(ColumnRef, BoundExpression)>, cd: Seq<Seq<(Seq<char>, SqlType, ColumnSize)>>, init: Seq<PlannedExpression>, n: int, c: int)
    requires
        0 <= n <= targets.len(),
        0 <= c < init.len(),
        update_targets(targets, cd, init, n) is Ok,
        forall|j: int| 0 <= j < n ==> 0 <= #[trigger] assigned_column(targets, cd, j) < init.len(),
        forall|j: int| 0 <= j < n ==> #[trigger] assigned_column(targets, cd, j) != c,
    ensures
        update_targets(targets, cd, init, n)->Ok_0[c] == init[c],
    decreases n,
{
    if n > 0 {
        lemma_update_targets_len(targets, cd, init, n - 1);
        lemma_update_unassigned_kept(targets, cd, init, n - 1, c);
        assert(assigned_column(targets, cd, n - 1) != c);
    }
}

pub open spec fn update_result(cat: Catalog, stmt: BoundUpdate) -> Result<Seq<PlannedExpression>, PlanFailure> {
    let t = stmt.table;
    match scan_failure(cat, t, stmt.filter_expr) {
        Some(f) => Err(f),
        None => update_targets(stmt.target_exprs@, seq![scan_descs(t)], init_exprs(scan_descs(t)), stmt.target_exprs@.len() as int),
    }
}

/// An UPDATE the planner handles: every column reference names a column of
/// its table.
pub open spec fn update_plannable(stmt: BoundUpdate) -> bool {
    let cd = seq![scan_descs(stmt.table)];
    &&& schema_ok(stmt.table.schema)
    &&& match stmt.filter_expr {
        Some(w) => refs_resolve(w, cd),
        None => true,
    }
    &&& forall|i: int| 0 <= i < stmt.target_exprs@.len() ==> {
        &&& refs_resolve((#[trigger] stmt.target_exprs@[i]).1, cd)
        &&& matches_in(cd, column_ref_text(stmt.target_exprs@[i].0)).len() >= 1
    }
}

pub open spec fn update_planned(cat: Catalog, stmt: BoundUpdate, p: PlanNode) -> bool {
    match (update_result(cat, stmt), p.kind) {
        (Ok(es), PlanNodeKind::Update(up)) => {
            &&& up.table_name@ == stmt.table.table_name@
            &&& up.table_oid == stmt.table.table_oid
            &&& up.table_schema@ == stmt.table.schema@
            &&& up.expressions@ == es
            &&& filtered(cat, stmt.table, stmt.filter_expr, *up.child)
            &&& descs(p.output_schema.columns@) == count_descs("__oxtub_internal.update_rows"@)
        },
        _ => false,
    }
}

pub open spec fn delete_plannable(stmt: BoundDelete) -> bool {
    &&& schema_ok(stmt.table.schema)
    &&& match stmt.filter_expr {
        Some(w) => refs_resolve(w, seq![scan_descs(stmt.table)]),
        None => true,
    }
}

pub open spec fn delete_planned(cat: Catalog, stmt: BoundDelete, p: PlanNode) -> bool {
    &&& scan_failure(cat, stmt.table, stmt.filter_expr) is None
    &&& match p.kind {
        PlanNodeKind::Delete(d) => {
            &&& d.table_oid == stmt.table.table_oid
            &&& filtered(cat, stmt.table, stmt.filter_expr, *d.child)
            &&& descs(p.output_schema.columns@) == count_descs("__oxtub_internal.delete_rows"@)
        },
        _ => false,
    }
}

/// A statement the planner handles, with its inputs as the planner needs
/// them.
pub open spec fn plannable(stmt: BoundStatement) -> bool {
    match stmt {
        BoundStatement::Select(s) => select_plannable(s),
        BoundStatement::Insert(s) => insert_plannable(s),
        BoundStatement::Update(s) => update_plannable(s),
        BoundStatement::Delete(s) => delete_plannable(s),
        _ => false,
    }
}

pub open spec fn statement_planned(cat: Catalog, stmt: BoundStatement, p: PlanNode) -> bool {
    match stmt {
        BoundStatement::Select(s) => select_planned(cat, s, p),
        BoundStatement::Insert(s) => insert_planned(cat, s, p),
        BoundStatement::Update(s) => update_planned(cat, s, p),
        BoundStatement::Delete(s) => delete_planned(cat, s, p),
        _ => false,
    }
}

/// Where planning a statement fails, if it does.
pub open spec fn statement_plan_failure(cat: Catalog, stmt: BoundStatement) -> Option<PlanFailure> {
    match stmt {
        BoundStatement::Select(s) => match select_list(cat, s) {
            Err(f) => Some(f),
            Ok(_) => None,
        },
        BoundStatement::Insert(s) => match insert_result(cat, s) {
            Err(f) => Some(f),
            Ok(_) => None,
        },
        BoundStatement::Update(s) => match update_result(cat, s) {
            Err(f) => Some(f),
            Ok(_) => None,
        },
        BoundStatement::Delete(s) => scan_failure(cat, s.table, s.filter_expr),
        _ => None,
    }
}

pub proof fn lemma_matches_bound(cols: Seq<(Seq<char>, SqlType, ColumnSize)>, name: Seq<char>, tuple_idx: usize, n: int)
    requires
        n <= cols.len(),
        cols.len() <= usize::MAX,
    ensures
        forall|k: int| 0 <= k < matches_in_cols(cols, name, tuple_idx, n).len() ==> {
            &&& (#[trigger] matches_in_cols(cols, name, tuple_idx, n)[k]).0.col_idx < cols.len()
            &&& matches_in_cols(cols, name, tuple_idx, n)[k].0.tuple_idx == tuple_idx
        },
    decreases n,
{
    if n > 0 {
        lemma_matches_bound(cols, name, tuple_idx, n - 1);
        let prev = matches_in_cols(cols, name, tuple_idx, n - 1);
        let cur = matches_in_cols(cols, name, tuple_idx, n);
        assert forall|k: int| 0 <= k < cur.len() implies (#[trigger] cur[k]).0.col_idx < cols.len() && cur[k].0.tuple_idx == tuple_idx by {
            if k < prev.len() {
                assert(cur[k] == prev[k]);
            } else {
                assert(((n - 1) as usize) == n - 1);
            }
        }
    }
}


pub proof fn lemma_plan_list_len(es: Seq<BoundExpression>, cd: Seq<Seq<(Seq<char>, SqlType, ColumnSize)>>, n: int)
    requires
        0 <= n,
    ensures
        plan_list(es, cd, n) matches Ok(l) ==> l.len() == n,
    decreases n,
{
    if n > 0 {
        lemma_plan_list_len(es, cd, n - 1);
    }
}

proof fn lemma_no_inputs_row(row: Seq<BoundExpression>)
    ensures
        plan_row(row).len() <= row.len(),
{
    lemma_plan_list_len(row, Seq::empty(), row.len() as int);
}


proof fn lemma_first_exact_found(cols: Seq<Column>, name: Seq<char>, k: int, n: int)
    requires
        0 <= k < n,
        first_exact(cols, name, k) is None,
        cols[k].name@ == name,
    ensures
        first_exact(cols, name, n) == Some(k),
    decreases n - k,
{
    if n > k + 1 {
        lemma_first_exact_found(cols, name, k, n - 1);
    }
}

proof fn lemma_insert_err_sticks(refs: Seq<ColumnRef>, table_cols: Seq<Column>, child: Seq<(Seq<char>, SqlType, ColumnSize)>, k: int, n: int)
    requires
        0 <= k <= n,
        insert_targets(refs, table_cols, child, k) is Err,
    ensures
        insert_targets(refs, table_cols, child, n) == insert_targets(refs, table_cols, child, k),
    decreases n - k,
{
    if k < n {
        lemma_insert_err_sticks(refs, table_cols, child, k, n - 1);
    }
}

proof fn lemma_update_err_sticks(targets: Seq<(ColumnRef, BoundExpression)>, cd: Seq<Seq<(Seq<char>, SqlType, ColumnSize)>>, init: Seq<PlannedExpression>, k: int, n: int)
    requires
        0 <= k <= n,
        update_targets(targets, cd, init, k) is Err,
    ensures
        update_targets(targets, cd, init, n) == update_targets(targets, cd, init, k),
    decreases n - k,
{
    if k < n {
        lemma_update_err_sticks(targets, cd, init, k, n - 1);
    }
}

proof fn lemma_type_desc_rename(t: ExpressionType, a: Seq<char>, b: Seq<char>)
    ensures
        type_desc(t, a) == (a, type_desc(t, b).1, type_desc(t, b).2),
{
}

pub proof fn lemma_no_inputs_plans(e: BoundExpression)
    requires
        refs_resolve(e, Seq::empty()),
    ensures
        plan_expr(e, Seq::empty()) is Ok,
    decreases e,
{
    match e {
        BoundExpression::BinaryOp { left, right, .. } => {
            lemma_no_inputs_plans(*left);
            lemma_no_inputs_plans(*right);
        },
        BoundExpression::UnaryOp { expr, .. } => lemma_no_inputs_plans(*expr),
        _ => {},
    }
}

proof fn lemma_plan_list_err_sticks(es: Seq<BoundExpression>, cd: Seq<Seq<(Seq<char>, SqlType, ColumnSize)>>, k: int, n: int)
    requires
        0 <= k <= n,
        plan_list(es, cd, k) is Err,
    ensures
        plan_list(es, cd, n) == plan_list(es, cd, k),
    decreases n - k,
{
    if k < n {
        lemma_plan_list_err_sticks(es, cd, k, n - 1);
    }
}

// ---------------------------------------------------------------------
// The planner
// ---------------------------------------------------------------------

/// Turns bound statements into plans.
pub struct Planner<'a> {
    pub catalog: &'a Catalog,
}

impl<'a> Planner<'a> {
    pub fn new(catalog: &'a Catalog) -> (res: Self)
        ensures
            res.catalog == catalog,
    {
        Planner { catalog }
    }

    pub fn make_arithmetic_expr(left: PlannedExpression, right: PlannedExpression, arithmetic_type: ArithmeticType) -> (res: PlannedExpression)
        ensures
            res == arithmetic(left, right, arithmetic_type),
    {
        let return_type = left.return_type;
        PlannedExpression {
            return_type,
            kind: PlannedExpressionKind::Arithmetic(ArithmeticExpression { left: Box::new(left), arithmetic_type, right: Box::new(right) }),
        }
    }

    pub fn make_comparison_expr(left: PlannedExpression, right: PlannedExpression, comparison_type: ComparisonType) -> (res: PlannedExpression)
        ensures
            res == comparison(left, right, comparison_type),
    {
        PlannedExpression {
            return_type: ExpressionType::new_bool(),
            kind: PlannedExpressionKind::Comparison(ComparisonExpression { left: Box::new(left), comparison_type, right: Box::new(right) }),
        }
    }

    pub fn make_logic_expr(left: PlannedExpression, right: PlannedExpression, logic_type: LogicType) -> (res: PlannedExpression)
        ensures
            res == logic(left, right, logic_type),
    {
        PlannedExpression {
            return_type: ExpressionType::new_bool(),
            kind: PlannedExpressionKind::Logic(LogicExpression { left: Box::new(left), logic_type, right: Box::new(right) }),
        }
    }

    pub fn make_not_expr(expr: PlannedExpression) -> (res: PlannedExpression)
        ensures
            res == unary_expr(expr, UnaryOperator::Not),
    {
        PlannedExpression { return_type: ExpressionType::new_bool(), kind: PlannedExpressionKind::Not(NotExpression { expr: Box::new(expr) }) }
    }

    pub fn make_negate_expr(expr: PlannedExpression) -> (res: PlannedExpression)
        ensures
            res == unary_expr(expr, UnaryOperator::Neg),
    {
        let return_type = expr.return_type;
        PlannedExpression { return_type, kind: PlannedExpressionKind::Negate(NegateExpression { expr: Box::new(expr) }) }
    }

    pub fn make_null_check_expr(expr: PlannedExpression, null_check_type: NullCheckType) -> (res: PlannedExpression)
        ensures
            null_check_type == NullCheckType::IsNull ==> res == unary_expr(expr, UnaryOperator::IsNull),
            null_check_type == NullCheckType::IsNotNull ==> res == unary_expr(expr, UnaryOperator::IsNotNull),
    {
        PlannedExpression {
            return_type: ExpressionType::new_bool(),
            kind: PlannedExpressionKind::NullCheck(NullCheckExpression { expr: Box::new(expr), null_check_type }),
        }
    }

    /// The columns of `child` named exactly `col_name`, as positions in the
    /// `tuple_idx`-th input.
    pub fn plan_column_ref_from_child(col_name: &str, child: &PlanNode, tuple_idx: usize) -> (res: Vec<(ColumnValueExpression, ExpressionType)>)
        ensures
            res@ == matches_in_cols(descs(child.output_schema.columns@), col_name@, tuple_idx, child.output_schema.columns@.len() as int),
    {
        let ghost d = descs(child.output_schema.columns@);
        let mut res: Vec<(ColumnValueExpression, ExpressionType)> = Vec::new();
        let mut i: usize = 0;
        while i < child.output_schema.columns.len()
            invariant
                i <= child.output_schema.columns@.len(),
                d == descs(child.output_schema.columns@),
                res@ == matches_in_cols(d, col_name@, tuple_idx, index_of(i)),
            decreases child.output_schema.columns@.len() - i,
        {
            let col = &child.output_schema.columns[i];
            if str_eq(col.name.as_str(), col_name) {
                res.push((ColumnValueExpression { tuple_idx, col_idx: i }, ExpressionType::from_column(col)));
            }
            i = i + 1;
        }
        res
    }

    /// Resolves a column reference among the columns of one or two inputs.
    pub fn plan_column_ref(&self, column_ref: ColumnRef, children: &[&PlanNode]) -> (res: Result<(Option<String>, ColumnValueExpression, ExpressionType), PlannerError>)
        requires
            children@.len() == 1 || children@.len() == 2,
            matches_in(children_descs(children@), column_ref_text(column_ref)).len() >= 1,
        ensures
            ({
                let ms = matches_in(children_descs(children@), column_ref_text(column_ref));
                match res {
                    Ok((n, c, t)) => ms.len() == 1 && c == ms[0].0 && t == ms[0].1
                        && opt_view(n) == Some(column_ref_text(column_ref)),
                    Err(e) => ms.len() > 1 && reports(e, PlanFailure::Ambiguous(column_ref_text(column_ref))),
                }
            }),
    {
        let col_name = column_ref.to_str();
        let ghost cd = children_descs(children@);
        let mut matched = Self::plan_column_ref_from_child(col_name.as_str(), children[0], 0);
        if children.len() == 2 {
            let mut more = Self::plan_column_ref_from_child(col_name.as_str(), children[1], 1);
            let ghost a = matched@;
            matched.append(&mut more);
        }
        assert(matched@ == matches_in(cd, column_ref_text(column_ref)));
        if matched.len() == 1 {
            let (c, t) = matched[0];
            Ok((Some(col_name), c, t))
        } else {
            Err(PlannerError::AmbiguousColumn(col_name))
        }
    }
    /// Plans an expression over the rows of `children`.
    pub fn plan_expression(&self, expr: BoundExpression, children: &[&PlanNode]) -> (res: Result<(Option<String>, PlannedExpression), PlannerError>)
        requires
            refs_resolve(expr, children_descs(children@)),
        ensures
            plan_agrees(res, plan_expr(expr, children_descs(children@))),
        decreases expr,
    {
        match expr {
            BoundExpression::Literal(value) => {
                let return_type = ExpressionType::from_value(&value);
                Ok((None, PlannedExpression { return_type, kind: PlannedExpressionKind::ConstantValue(ConstantValueExpression { value }) }))
            },
            BoundExpression::Column(column_ref) => {
                let ghost cr = column_ref;
                let (name, col, t) = self.plan_column_ref(column_ref, children)?;
                Ok((name, PlannedExpression { return_type: t, kind: PlannedExpressionKind::ColumnValue(col) }))
            },
            BoundExpression::BinaryOp { left, op, right } => {
                let (_, l) = self.plan_expression(*left, children)?;
                let (_, r) = self.plan_expression(*right, children)?;
                let e = match op {
                    BinaryOperator::Plus => Self::make_arithmetic_expr(l, r, ArithmeticType::Plus),
                    BinaryOperator::Minus => Self::make_arithmetic_expr(l, r, ArithmeticType::Minus),
                    BinaryOperator::Eq => Self::make_comparison_expr(l, r, ComparisonType::Eq),
                    BinaryOperator::NotEq => Self::make_comparison_expr(l, r, ComparisonType::NotEq),
                    BinaryOperator::Lt => Self::make_comparison_expr(l, r, ComparisonType::LessThan),
                    BinaryOperator::LtEq => Self::make_comparison_expr(l, r, ComparisonType::LessThanOrEqual),
                    BinaryOperator::Gt => Self::make_comparison_expr(l, r, ComparisonType::GreaterThan),
                    BinaryOperator::GtEq => Self::make_comparison_expr(l, r, ComparisonType::GreaterThanOrEqual),
                    BinaryOperator::And => Self::make_logic_expr(l, r, LogicType::And),
                    BinaryOperator::Or => Self::make_logic_expr(l, r, LogicType::Or),
                };
                Ok((None, e))
            },
            BoundExpression::UnaryOp { expr, op } => {
                let (_, x) = self.plan_expression(*expr, children)?;
                let e = match op {
                    UnaryOperator::Not => Self::make_not_expr(x),
                    UnaryOperator::Neg => Self::make_negate_expr(x),
                    UnaryOperator::IsNull => Self::make_null_check_expr(x, NullCheckType::IsNull),
                    UnaryOperator::IsNotNull => Self::make_null_check_expr(x, NullCheckType::IsNotNull),
                };
                Ok((None, e))
            },
        }
    }
    /// Plans a FROM clause: a scan of its table.
    pub fn plan_table_ref(&self, tbl_ref: BoundTableRef) -> (res: Result<PlanNode, PlannerError>)
        requires
            self.catalog.wf(),
            tbl_ref is BaseTable,
            schema_ok(base_of(tbl_ref).schema),
        ensures
            match res {
                Ok(p) => scans(*self.catalog, base_of(tbl_ref), p),
                Err(e) => scan_failure(*self.catalog, base_of(tbl_ref), None) matches Some(f) && reports(e, f),
            },
    {
        match tbl_ref {
            BoundTableRef::BaseTable(b) => {
                let info = match self.catalog.get_tbl_by_name(b.tbl_name()) {
                    Ok(info) => info,
                    Err(e) => return Err(PlannerError::Catalog(e)),
                };
                let table_oid = info.table_oid();
                let output_schema = SeqScanPlan::infer_scan_schema(&b);
                let table_name = b.table_name.clone();
                Ok(PlanNode { output_schema, kind: PlanNodeKind::SeqScan(SeqScanPlan { table_name, table_oid, filter_predicate: None }) })
            },
            _ => {
                assert(false);
                Err(PlannerError::UnsupportedStatement)
            },
        }
    }

    /// Plans a SELECT: a scan of its table, filtered by its WHERE clause,
    /// under a projection of its select list.
    #[verifier::rlimit(40)]
    pub fn plan_select(&self, stmt: BoundSelect) -> (res: Result<PlanNode, PlannerError>)
        requires
            self.catalog.wf(),
            select_plannable(stmt),
        ensures
            match res {
                Ok(p) => select_planned(*self.catalog, stmt, p),
                Err(e) => match select_list(*self.catalog, stmt) {
                    Err(f) => reports(e, f),
                    Ok(_) => false,
                },
            },
    {
        let ghost t = base_of(stmt.table);
        let ghost cd = seq![scan_descs(t)];
        let ghost es = stmt.projection@;
        let BoundSelect { table, projection, where_ } = stmt;
        let scan = self.plan_table_ref(table)?;
        let plan = match where_ {
            None => scan,
            Some(w) => {
                let schema = scan.output_schema.clone();
                let pred = {
                    let mut children: Vec<&PlanNode> = Vec::new();
                    children.push(&scan);
                    assert(children_descs(children@) =~= cd);
                    let (_, e) = self.plan_expression(w, children.as_slice())?;
                    e
                };
                PlanNode { output_schema: schema, kind: PlanNodeKind::Filter(FilterPlan { predicate: pred, child: Box::new(scan) }) }
            },
        };
        assert(filtered(*self.catalog, t, stmt.where_, plan));
        let mut exprs: Vec<PlannedExpression> = Vec::new();
        let mut names: Vec<String> = Vec::new();
        let ghost mut gl: Seq<(Option<Seq<char>>, PlannedExpression)> = Seq::empty();
        let mut rest = projection;
        let n: usize = rest.len();
        let mut idx: usize = 0;
        while rest.len() > 0
            invariant
                idx + rest@.len() == es.len(),
                n == es.len(),
                es == stmt.projection@,
                t == base_of(stmt.table),
                cd == seq![scan_descs(t)],
                select_plannable(stmt),
                descs(plan.output_schema.columns@) == scan_descs(t),
                rest@ == es.subrange(index_of(idx), es.len() as int),
                scan_failure(*self.catalog, t, stmt.where_) is None,
                plan_list(es, cd, index_of(idx)) == Ok::<Seq<(Option<Seq<char>>, PlannedExpression)>, PlanFailure>(gl),
                exprs@ == exprs_of(gl),
                names@.len() == idx,
                gl.len() == idx,
                forall|k: int| 0 <= k < idx ==> (#[trigger] names@[k])@ == proj_names(gl)[k],
            decreases rest@.len(),
        {
            let e = rest.remove(0);
            assert(e == es[index_of(idx)]);
            let mut children: Vec<&PlanNode> = Vec::new();
            children.push(&plan);
            assert(children_descs(children@) =~= cd);
            let planned = self.plan_expression(e, children.as_slice());
            match planned {
                Err(err) => {
                    proof { lemma_plan_list_err_sticks(es, cd, index_of(idx) + 1, es.len() as int); }
                    return Err(err);
                },
                Ok((name, pe)) => {
                    let name = match name {
                        Some(name) => name,
                        None => concat3("__unnamed", "#", usize_to_string(idx).as_str()),
                    };
                    proof { gl = gl.push((plan_expr(e, cd)->Ok_0.0, pe)); }
                    exprs.push(pe);
                    names.push(name);
                    assert(exprs@ =~= exprs_of(gl));
                },
            }
            idx = idx + 1;
            assert(rest@ =~= es.subrange(index_of(idx), es.len() as int));
        }
        let unnamed = ProjectionPlan::infer_proj_schema(exprs.as_slice());
        assert(descs(unnamed.columns@).len() == unnamed.columns@.len());
        assert(exprs@.len() == names@.len());
        let output_schema = ProjectionPlan::rename_schema(&unnamed, names.as_slice());
        proof {
            assert forall|k: int| 0 <= k < gl.len() implies #[trigger] descs(output_schema.columns@)[k] == proj_descs(gl)[k] by {
                assert(desc(unnamed.columns@[k]) == descs(unnamed.columns@)[k]);
                lemma_type_desc_rename(gl[k].1.return_type, proj_names(gl)[k], "<unnamed>"@);
            }
            assert(descs(output_schema.columns@) =~= proj_descs(gl));
        }
        Ok(PlanNode { output_schema, kind: PlanNodeKind::Projection(ProjectionPlan { expressions: exprs, child: Box::new(plan) }) })
    }
    /// Plans a row of expressions that refer to no column.
    pub fn plan_row_exprs(&self, row: Vec<BoundExpression>) -> (res: Vec<PlannedExpression>)
        requires
            forall|i: int| 0 <= i < row@.len() ==> refs_resolve(#[trigger] row@[i], Seq::empty()),
        ensures
            res@ == plan_row(row@),
    {
        let ghost es = row@;
        let ghost empty: Seq<Seq<(Seq<char>, SqlType, ColumnSize)>> = Seq::empty();
        let children: Vec<&PlanNode> = Vec::new();
        assert(children_descs(children@) =~= empty);
        let mut res: Vec<PlannedExpression> = Vec::new();
        let ghost mut gl: Seq<(Option<Seq<char>>, PlannedExpression)> = Seq::empty();
        let mut rest = row;
        let n: usize = rest.len();
        let mut i: usize = 0;
        while rest.len() > 0
            invariant
                i + rest@.len() == es.len(),
                n == es.len(),
                empty == Seq::<Seq<(Seq<char>, SqlType, ColumnSize)>>::empty(),
                children_descs(children@) == empty,
                forall|k: int| 0 <= k < es.len() ==> refs_resolve(#[trigger] es[k], Seq::empty()),
                rest@ == es.subrange(index_of(i), es.len() as int),
                plan_list(es, empty, index_of(i)) == Ok::<Seq<(Option<Seq<char>>, PlannedExpression)>, PlanFailure>(gl),
                res@ == exprs_of(gl),
            decreases rest@.len(),
        {
            let e = rest.remove(0);
            assert(e == es[index_of(i)]);
            assert(refs_resolve(es[index_of(i)], Seq::empty()));
            assert(refs_resolve(e, empty));
            proof { lemma_no_inputs_plans(e); }
            match self.plan_expression(e, children.as_slice()) {
                Ok((_, pe)) => {
                    proof { gl = gl.push((plan_expr(e, empty)->Ok_0.0, pe)); }
                    res.push(pe);
                    assert(res@ =~= exprs_of(gl));
                },
                Err(_) => {
                    assert(false);
                },
            }
            i = i + 1;
            assert(rest@ =~= es.subrange(index_of(i), es.len() as int));
        }
        res
    }

    /// Plans a VALUES list; its columns are typed after its first row.
    pub fn plan_bound_expression_list(&self, expr_list: BoundExpressionListRef) -> (res: Result<PlanNode, PlannerError>)
        requires
            values_plannable(expr_list),
        ensures
            match res {
                Ok(p) => values_planned(expr_list, p),
                Err(_) => false,
            },
    {
        let ghost l = expr_list;
        let BoundExpressionListRef { identifier, values } = expr_list;
        let mut rows: Vec<Vec<PlannedExpression>> = Vec::new();
        let mut rest = values;
        let n: usize = rest.len();
        let mut r: usize = 0;
        while rest.len() > 0
            invariant
                r + rest@.len() == l.values@.len(),
                n == l.values@.len(),
                values_plannable(l),
                rest@ == l.values@.subrange(index_of(r), l.values@.len() as int),
                rows@.len() == r,
                forall|k: int| 0 <= k < r ==> (#[trigger] rows@[k])@ == plan_row(l.values@[k]@),
            decreases rest@.len(),
        {
            let row = rest.remove(0);
            assert(row == l.values@[index_of(r)]);
            assert forall|i: int| 0 <= i < row@.len() implies refs_resolve(#[trigger] row@[i], Seq::empty()) by {
                assert(refs_resolve(l.values@[index_of(r)]@[i], Seq::empty()));
            }
            let planned = self.plan_row_exprs(row);
            rows.push(planned);
            r = r + 1;
            assert(rest@ =~= l.values@.subrange(index_of(r), l.values@.len() as int));
        }
        let first = &rows[0];
        let mut columns: Vec<Column> = Vec::new();
        let mut i: usize = 0;
        while i < first.len()
            invariant
                i <= first@.len(),
                first@ == plan_row(l.values@[0]@),
                identifier@ == l.identifier@,
                columns@.len() == i,
                forall|k: int| 0 <= k < i ==> desc(#[trigger] columns@[k]) == values_descs(l)[k],
                crate::catalog::schema::all_well_formed(columns@),
            decreases first@.len() - i,
        {
            let name = concat3(identifier.as_str(), ".", usize_to_string(i).as_str());
            let c = first[i].return_type.to_column(name);
            columns.push(c);
            i = i + 1;
        }
        assert(plan_row(l.values@[0]@).len() <= l.values@[0]@.len()) by {
            lemma_no_inputs_row(l.values@[0]@);
        }
        let output_schema = Schema::new(columns.as_slice());
        proof {
            crate::query::planner::plan::lemma_laid_out_descs(columns@, output_schema);
            assert(descs(columns@) =~= values_descs(l));
        }
        Ok(PlanNode { output_schema, kind: PlanNodeKind::Values(ValuesPlan { rows }) })
    }
    /// The schema of a statement that reports how many rows it changed.
    pub fn count_schema(name: &str) -> (res: Schema)
        ensures
            descs(res.columns@) == count_descs(name@),
    {
        let mut columns: Vec<Column> = Vec::new();
        columns.push(Column::new_static(name.to_string(), SqlType::Integer));
        let res = Schema::new(columns.as_slice());
        proof {
            crate::query::planner::plan::lemma_laid_out_descs(columns@, res);
            assert(descs(columns@) =~= count_descs(name@));
        }
        res
    }

    /// Plans an INSERT: its source, then where each value goes.
    pub fn plan_insert(&self, stmt: BoundInsert) -> (res: Result<PlanNode, PlannerError>)
        requires
            self.catalog.wf(),
            insert_plannable(stmt),
        ensures
            match res {
                Ok(p) => insert_planned(*self.catalog, stmt, p),
                Err(e) => match insert_result(*self.catalog, stmt) {
                    Err(f) => reports(e, f),
                    Ok(_) => false,
                },
            },
    {
        let ghost st = stmt;
        let BoundInsert { table, columns, source } = stmt;
        let child = match source {
            BoundInsertSource::Values(values) => self.plan_bound_expression_list(values)?,
            BoundInsertSource::Select(select) => self.plan_select(select)?,
        };
        assert(source_descs(*self.catalog, st.source) == Ok::<Seq<(Seq<char>, SqlType, ColumnSize)>, PlanFailure>(descs(child.output_schema.columns@)));
        if columns.len() != child.output_schema.columns.len() {
            return Err(PlannerError::InsertSchemaMismatch);
        }
        let ghost cd = descs(child.output_schema.columns@);
        let table_cols = &table.schema.columns;
        let mut target_col_idxs: Vec<usize> = Vec::new();
        let mut i: usize = 0;
        while i < columns.len()
            invariant
                i <= columns@.len(),
                columns@ == st.columns@,
                st == stmt,
                *table_cols == st.table.schema.columns,
                table == st.table,
                insert_plannable(st),
                cd == descs(child.output_schema.columns@),
                source_descs(*self.catalog, st.source) == Ok::<Seq<(Seq<char>, SqlType, ColumnSize)>, PlanFailure>(cd),
                cd.len() == columns@.len(),
                insert_targets(columns@, table_cols@, cd, index_of(i)) == Ok::<Seq<usize>, PlanFailure>(target_col_idxs@),
                target_col_idxs@.len() == i,
                forall|q: int| 0 <= q < target_col_idxs@.len() ==> (#[trigger] target_col_idxs@[q]) < table_cols@.len(),
            decreases columns@.len() - i,
        {
            let name: &String = match &columns[i] {
                ColumnRef::Unqualified { column } => column,
                ColumnRef::TableQualified { column, .. } => column,
                ColumnRef::SchemaTableQualified { column, .. } => column,
            };
            let ghost key = ref_column(columns@[index_of(i)]);
            assert(name@ == key);
            let mut k: usize = 0;
            while k < table_cols.len() && !str_eq(table_cols[k].name.as_str(), name.as_str())
                invariant
                    k <= table_cols@.len(),
                    first_exact(table_cols@, key, index_of(k)) is None,
                    first_exact(table_cols@, key, table_cols@.len() as int) is Some,
                    name@ == key,
                decreases table_cols@.len() - k,
            {
                k = k + 1;
            }
            proof {
                if k == table_cols@.len() {
                    assert(false);
                }
                lemma_first_exact_found(table_cols@, key, index_of(k), table_cols@.len() as int);
            }
            let target = &table_cols[k];
            let value = &child.output_schema.columns[i];
            assert(cd[index_of(i)] == (value.name@, value.sql_type, value.size));
            if target.sql_type != value.sql_type {
                proof { lemma_insert_err_sticks(columns@, table_cols@, cd, index_of(i) + 1, cd.len() as int); }
                return Err(PlannerError::InsertSchemaMismatch);
            }
            if target.sql_type.is_varlen() && value.declared_size() > target.declared_size() {
                proof { lemma_insert_err_sticks(columns@, table_cols@, cd, index_of(i) + 1, cd.len() as int); }
                return Err(PlannerError::InsertSchemaMismatch);
            }
            target_col_idxs.push(k);
            i = i + 1;
        }
        let ghost targets = target_col_idxs@;
        if let PlanNodeKind::Values(vp) = &child.kind {
            let ghost l = st.source->Values_0;
            assert(st.source is Values);
            assert(index_of(i) == cd.len());
            assert(insert_result(*self.catalog, st) == (if rows_fit(l, table_cols@, targets) {
                Ok::<Seq<usize>, PlanFailure>(targets)
            } else {
                Err::<Seq<usize>, PlanFailure>(PlanFailure::InsertMismatch)
            }));
            let mut r: usize = 0;
            while r < vp.rows.len()
                invariant
                    st == stmt,
                    insert_result(*self.catalog, st) == (if rows_fit(l, table_cols@, targets) {
                        Ok::<Seq<usize>, PlanFailure>(targets)
                    } else {
                        Err::<Seq<usize>, PlanFailure>(PlanFailure::InsertMismatch)
                    }),
                    r <= vp.rows@.len(),
                    values_planned(l, child),
                    child.kind == PlanNodeKind::Values(*vp),
                    targets == target_col_idxs@,
                    targets.len() == columns@.len(),
                    *table_cols == st.table.schema.columns,
                    forall|k: int| 0 <= k < targets.len() ==> (#[trigger] targets[k]) < table_cols@.len(),
                    forall|q: int| 0 <= q < r ==> row_fits(#[trigger] plan_row(l.values@[q]@), table_cols@, targets),
                decreases vp.rows@.len() - r,
            {
                let row = &vp.rows[r];
                assert(row@ == plan_row(l.values@[index_of(r)]@));
                if row.len() != target_col_idxs.len() {
                    assert(!row_fits(plan_row(l.values@[index_of(r)]@), table_cols@, targets));
                    return Err(PlannerError::InsertSchemaMismatch);
                }
                let mut j: usize = 0;
                while j < row.len()
                    invariant
                        st == stmt,
                        insert_result(*self.catalog, st) == (if rows_fit(l, table_cols@, targets) {
                            Ok::<Seq<usize>, PlanFailure>(targets)
                        } else {
                            Err::<Seq<usize>, PlanFailure>(PlanFailure::InsertMismatch)
                        }),
                        row@ == plan_row(l.values@[index_of(r)]@),
                        index_of(r) < l.values@.len(),
                        j <= row@.len(),
                        row@.len() == targets.len(),
                        targets == target_col_idxs@,
                        forall|k: int| 0 <= k < targets.len() ==> (#[trigger] targets[k]) < table_cols@.len(),
                        forall|q: int| 0 <= q < j ==> value_fits(table_cols@[targets[q] as int], (#[trigger] row@[q]).return_type),
                    decreases row@.len() - j,
                {
                    let target = &table_cols[target_col_idxs[j]];
                    let t = &row[j].return_type;
                    let size: usize = match t.varchar_size {
                        Some(s) => s,
                        None => 0,
                    };
                    let fits = target.sql_type == t.sql_type
                        && !(target.sql_type.is_varlen() && size > target.declared_size());
                    if !fits {
                        assert(!value_fits(table_cols@[targets[index_of(j)] as int], row@[index_of(j)].return_type));
                        assert(!row_fits(row@, table_cols@, targets));
                        return Err(PlannerError::InsertSchemaMismatch);
                    }
                    j = j + 1;
                }
                r = r + 1;
            }
            assert(rows_fit(l, table_cols@, targets));
        }
        let output_schema = Self::count_schema("__oxtub_internal.insert_rows");
        let table_name = table.table_name.clone();
        let table_schema = table.schema.clone();
        Ok(PlanNode {
            output_schema,
            kind: PlanNodeKind::Insert(InsertPlan {
                table_name,
                table_oid: table.table_oid,
                table_schema,
                target_col_idxs,
                child: Box::new(child),
            }),
        })
    }

    /// Plans a DELETE: the filtered scan of its table.
    pub fn plan_delete(&self, stmt: BoundDelete) -> (res: Result<PlanNode, PlannerError>)
        requires
            self.catalog.wf(),
            delete_plannable(stmt),
        ensures
            match res {
                Ok(p) => delete_planned(*self.catalog, stmt, p),
                Err(e) => match scan_failure(*self.catalog, stmt.table, stmt.filter_expr) {
                    Some(f) => reports(e, f),
                    None => false,
                },
            },
    {
        let ghost t = stmt.table;
        let BoundDelete { table, filter_expr } = stmt;
        let table_oid = table.table_oid;
        let filtered_node = self.plan_filtered_table(table, filter_expr)?;
        let output_schema = Self::count_schema("__oxtub_internal.delete_rows");
        Ok(PlanNode { output_schema, kind: PlanNodeKind::Delete(DeletePlan { table_oid, child: Box::new(filtered_node) }) })
    }

    /// A scan of `table`, filtered by `filter` where there is one.
    pub fn plan_filtered_table(&self, table: BoundBaseTableRef, filter: Option<BoundExpression>) -> (res: Result<PlanNode, PlannerError>)
        requires
            self.catalog.wf(),
            schema_ok(table.schema),
            match filter {
                Some(w) => refs_resolve(w, seq![scan_descs(table)]),
                None => true,
            },
        ensures
            match res {
                Ok(p) => filtered(*self.catalog, table, filter, p) && scan_failure(*self.catalog, table, filter) is None,
                Err(e) => match scan_failure(*self.catalog, table, filter) {
                    Some(f) => reports(e, f),
                    None => false,
                },
            },
    {
        let ghost t = table;
        let ghost cd = seq![scan_descs(t)];
        let scan = self.plan_table_ref(BoundTableRef::BaseTable(table))?;
        match filter {
            None => Ok(scan),
            Some(w) => {
                let schema = scan.output_schema.clone();
                let pred = {
                    let mut children: Vec<&PlanNode> = Vec::new();
                    children.push(&scan);
                    assert(children_descs(children@) =~= cd);
                    let (_, e) = self.plan_expression(w, children.as_slice())?;
                    e
                };
                Ok(PlanNode { output_schema: schema, kind: PlanNodeKind::Filter(FilterPlan { predicate: pred, child: Box::new(scan) }) })
            },
        }
    }

    /// Plans an UPDATE: the filtered scan of its table, and for every
    /// column the expression of its new value.
    pub fn plan_update(&self, stmt: BoundUpdate) -> (res: Result<PlanNode, PlannerError>)
        requires
            self.catalog.wf(),
            update_plannable(stmt),
        ensures
            match res {
                Ok(p) => update_planned(*self.catalog, stmt, p),
                Err(e) => match update_result(*self.catalog, stmt) {
                    Err(f) => reports(e, f),
                    Ok(_) => false,
                },
            },
    {
        let ghost st = stmt;
        let ghost t = stmt.table;
        let ghost cd = seq![scan_descs(t)];
        let BoundUpdate { table, filter_expr, target_exprs } = stmt;
        let table_name = table.table_name.clone();
        let table_oid = table.table_oid;
        let table_schema = table.schema.clone();
        let filtered_node = self.plan_filtered_table(table, filter_expr)?;
        let mut exprs: Vec<PlannedExpression> = Vec::new();
        let ncols = filtered_node.output_schema.columns.len();
        let mut c: usize = 0;
        while c < ncols
            invariant
                c <= ncols,
                ncols == filtered_node.output_schema.columns@.len(),
                descs(filtered_node.output_schema.columns@) == scan_descs(t),
                exprs@ == init_exprs(scan_descs(t)).subrange(0, index_of(c)),
            decreases ncols - c,
        {
            let col = &filtered_node.output_schema.columns[c];
            assert(scan_descs(t)[index_of(c)] == (col.name@, col.sql_type, col.size));
            exprs.push(PlannedExpression {
                return_type: ExpressionType::from_column(col),
                kind: PlannedExpressionKind::ColumnValue(ColumnValueExpression { tuple_idx: 0, col_idx: c }),
            });
            c = c + 1;
            assert(exprs@ =~= init_exprs(scan_descs(t)).subrange(0, index_of(c)));
        }
        assert(exprs@ =~= init_exprs(scan_descs(t)));
        let ghost init = exprs@;
        let ghost ts = target_exprs@;
        let mut rest = target_exprs;
        let n: usize = rest.len();
        let mut i: usize = 0;
        while rest.len() > 0
            invariant
                i + rest@.len() == ts.len(),
                n == ts.len(),
                ts == st.target_exprs@,
                st == stmt,
                t == st.table,
                cd == seq![scan_descs(t)],
                update_plannable(st),
                init == init_exprs(scan_descs(t)),
                descs(filtered_node.output_schema.columns@) == scan_descs(t),
                scan_failure(*self.catalog, t, st.filter_expr) is None,
                filtered(*self.catalog, t, st.filter_expr, filtered_node),
                rest@ == ts.subrange(index_of(i), ts.len() as int),
                update_targets(ts, cd, init, index_of(i)) == Ok::<Seq<PlannedExpression>, PlanFailure>(exprs@),
                exprs@.len() == scan_descs(t).len(),
            decreases rest@.len(),
        {
            let (col, expr) = rest.remove(0);
            assert((col, expr) == ts[index_of(i)]);
            let mut children: Vec<&PlanNode> = Vec::new();
            children.push(&filtered_node);
            assert(children_descs(children@) =~= cd);
            let target_expr = match self.plan_expression(expr, children.as_slice()) {
                Ok((_, e)) => e,
                Err(e) => {
                    proof { lemma_update_err_sticks(ts, cd, init, index_of(i) + 1, ts.len() as int); }
                    return Err(e);
                },
            };
            let (_, col_expr, expr_type) = match self.plan_column_ref(col, children.as_slice()) {
                Ok(r) => r,
                Err(e) => {
                    proof { lemma_update_err_sticks(ts, cd, init, index_of(i) + 1, ts.len() as int); }
                    return Err(e);
                },
            };
            if expr_type.sql_type != target_expr.return_type.sql_type {
                proof { lemma_update_err_sticks(ts, cd, init, index_of(i) + 1, ts.len() as int); }
                return Err(PlannerError::UpdateSchemaMismatch);
            }
            proof {
                lemma_matches_bound(scan_descs(t), column_ref_text(ts[index_of(i)].0), 0, scan_descs(t).len() as int);
                assert(scan_descs(t).len() == filtered_node.output_schema.columns@.len());
            }
            exprs.set(col_expr.col_idx, target_expr);
            i = i + 1;
            assert(rest@ =~= ts.subrange(index_of(i), ts.len() as int));
        }
        let output_schema = Self::count_schema("__oxtub_internal.update_rows");
        Ok(PlanNode {
            output_schema,
            kind: PlanNodeKind::Update(UpdatePlan { table_name, table_oid, table_schema, expressions: exprs, child: Box::new(filtered_node) }),
        })
    }

    /// Plans a SELECT, INSERT, UPDATE or DELETE.
    pub fn plan_statement(&self, stmt: BoundStatement) -> (res: Result<PlanNode, PlannerError>)
        requires
            self.catalog.wf(),
            plannable(stmt),
        ensures
            match res {
                Ok(p) => statement_planned(*self.catalog, stmt, p),
                Err(e) => match statement_plan_failure(*self.catalog, stmt) {
                    Some(f) => reports(e, f),
                    None => false,
                },
            },
    {
        match stmt {
            BoundStatement::Select(s) => self.plan_select(s),
            BoundStatement::Insert(s) => self.plan_insert(s),
            BoundStatement::Update(s) => self.plan_update(s),
            BoundStatement::Delete(s) => self.plan_delete(s),
            _ => {
                assert(false);
                Err(PlannerError::UnsupportedStatement)
            },
        }
    }
}

} // verus!
