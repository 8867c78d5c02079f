use vstd::prelude::*;
use crate::common::strings::{concat3, decimal, i64_to_string, signed_decimal, trim_newlines, trim_trailing_newlines, usize_to_string};
use crate::query::planner::expression::{
    ArithmeticType, ComparisonType, LogicType, NullCheckType, PlannedExpression, PlannedExpressionKind,
};
use crate::query::planner::plan::{PlanNode, PlanNodeKind};
use crate::query::table_ref::JoinType;
use crate::types::value::Value;

verus! {

// ---------------------------------------------------------------------
// The text of a plan
// ---------------------------------------------------------------------

/// Two spaces per level of indentation.
pub open spec fn spaces(n: nat) -> Seq<char>
    decreases n,
{
    if n == 0 {
        Seq::empty()
    } else {
        spaces((n - 1) as nat) + "  "@
    }
}

pub open spec fn value_text(v: Value) -> Seq<char> {
    match v {
        Value::Boolean(b) => if b { "true"@ } else { "false"@ },
        Value::SmallInt(i) => signed_decimal(i as int),
        Value::Integer(i) => signed_decimal(i as int),
        Value::BigInt(i) => signed_decimal(i as int),
        Value::Varchar(s) => "'"@ + s@ + "'"@,
        Value::Null(_) => "NULL"@,
    }
}

pub open spec fn comparison_text(t: ComparisonType) -> Seq<char> {
    match t {
        ComparisonType::Eq => "="@,
        ComparisonType::NotEq => "!="@,
        ComparisonType::LessThan => "<"@,
        ComparisonType::LessThanOrEqual => "<="@,
        ComparisonType::GreaterThan => ">"@,
        ComparisonType::GreaterThanOrEqual => ">="@,
    }
}

pub open spec fn arithmetic_text(t: ArithmeticType) -> Seq<char> {
    match t {
        ArithmeticType::Plus => "+"@,
        ArithmeticType::Minus => "-"@,
    }
}

pub open spec fn logic_text(t: LogicType) -> Seq<char> {
    match t {
        LogicType::And => "AND"@,
        LogicType::Or => "OR"@,
    }
}

pub open spec fn null_check_text(t: NullCheckType) -> Seq<char> {
    match t {
        NullCheckType::IsNull => "IS NULL"@,
        NullCheckType::IsNotNull => "IS NOT NULL"@,
    }
}

pub open spec fn join_type_text(t: JoinType) -> Seq<char> {
    match t {
        JoinType::Inner => "inner"@,
        JoinType::Left => "left"@,
        JoinType::Cross => "cross"@,
    }
}

/// An expression in infix form: columns as `#<input>.<column>`, binary
/// operations in parentheses.
pub open spec fn expr_text(e: PlannedExpression) -> Seq<char>
    decreases e,
{
    match e.kind {
        PlannedExpressionKind::ColumnValue(c) => "#"@ + decimal(c.tuple_idx as nat) + "."@ + decimal(c.col_idx as nat),
        PlannedExpressionKind::ConstantValue(c) => value_text(c.value),
        PlannedExpressionKind::Comparison(c) =>
            "("@ + expr_text(*c.left) + " "@ + comparison_text(c.comparison_type) + " "@ + expr_text(*c.right) + ")"@,
        PlannedExpressionKind::Arithmetic(c) =>
            "("@ + expr_text(*c.left) + " "@ + arithmetic_text(c.arithmetic_type) + " "@ + expr_text(*c.right) + ")"@,
        PlannedExpressionKind::Logic(c) =>
            "("@ + expr_text(*c.left) + " "@ + logic_text(c.logic_type) + " "@ + expr_text(*c.right) + ")"@,
        PlannedExpressionKind::Not(c) => "NOT "@ + expr_text(*c.expr),
        PlannedExpressionKind::Negate(c) => "-"@ + expr_text(*c.expr),
        PlannedExpressionKind::NullCheck(c) => expr_text(*c.expr) + " "@ + null_check_text(c.null_check_type),
    }
}

/// The first `n` expressions of a list, separated by `, `.
pub open spec fn list_text(es: Seq<PlannedExpression>, n: int) -> Seq<char>
    decreases n,
{
    if n <= 0 {
        Seq::empty()
    } else if n == 1 {
        expr_text(es[0])
    } else {
        list_text(es, n - 1) + ", "@ + expr_text(es[n - 1])
    }
}

/// The line of a plan node, without its indentation.
pub open spec fn head_text(p: PlanNode) -> Seq<char> {
    match p.kind {
        PlanNodeKind::SeqScan(s) => "SeqScan table="@ + s.table_name@ + match s.filter_predicate {
            Some(f) => " filter="@ + expr_text(f),
            None => Seq::empty(),
        } + "\n"@,
        PlanNodeKind::Filter(f) => "Filter predicate="@ + expr_text(f.predicate) + "\n"@,
        PlanNodeKind::Projection(pp) => "Projection exprs=["@ + list_text(pp.expressions@, pp.expressions@.len() as int) + "]"@ + "\n"@,
        PlanNodeKind::Values(v) => "Values rows="@ + decimal(v.rows@.len()) + "\n"@,
        PlanNodeKind::Insert(ip) => "Insert table="@ + ip.table_name@ + "\n"@,
        PlanNodeKind::CreateTable(c) => "CreateTable table="@ + c.name@ + "\n"@,
        PlanNodeKind::Update(up) => "Update table="@ + up.table_name@ + " exprs=["@
            + list_text(up.expressions@, up.expressions@.len() as int) + "]"@ + "\n"@,
        PlanNodeKind::Delete(d) => "Delete table_oid="@ + decimal(d.table_oid as nat) + "\n"@,
        PlanNodeKind::NestedLoopJoin(j) => "NestedLoopJoin type="@ + join_type_text(j.join_type) + match j.predicate {
            Some(pr) => " predicate="@ + expr_text(pr),
            None => Seq::empty(),
        } + "\n"@,
        PlanNodeKind::NestedIndexJoin(j) => "NestedIndexJoin type="@ + join_type_text(j.join_type) + " index="@
            + j.inner_table_index_name@ + "\n"@,
    }
}

/// A plan as an indented tree, one line per node, children below their
/// parent and one level deeper.
pub open spec fn plan_text(p: PlanNode, indent: nat) -> Seq<char>
    decreases p,
{
    spaces(indent) + head_text(p) + match p.kind {
        PlanNodeKind::Filter(f) => plan_text(*f.child, indent + 1),
        PlanNodeKind::Projection(pp) => plan_text(*pp.child, indent + 1),
        PlanNodeKind::Insert(ip) => plan_text(*ip.child, indent + 1),
        PlanNodeKind::Update(up) => plan_text(*up.child, indent + 1),
        PlanNodeKind::Delete(d) => plan_text(*d.child, indent + 1),
        PlanNodeKind::NestedLoopJoin(j) => plan_text(*j.left, indent + 1) + plan_text(*j.right, indent + 1),
        PlanNodeKind::NestedIndexJoin(j) => plan_text(*j.child, indent + 1),
        _ => Seq::empty(),
    }
}

// ---------------------------------------------------------------------
// Formatting
// ---------------------------------------------------------------------

/// The plan as an indented tree, without a final newline.
pub fn format_plan(plan: &PlanNode) -> (res: String)
    requires
        plan.depth() < usize::MAX,
    ensures
        res@ == trim_newlines(plan_text(*plan, 0)),
{
    let mut out = String::new();
    assert(out@ =~= Seq::<char>::empty());
    format_plan_node(plan, 0, &mut out);
    assert(out@ =~= plan_text(*plan, 0));
    trim_trailing_newlines(out.as_str())
}

fn push_spaces(indent: usize, out: &mut String)
    ensures
        final(out)@ == old(out)@ + spaces(indent as nat),
{
    let mut i: usize = 0;
    while i < indent
        invariant
            i <= indent,
            out@ == old(out)@ + spaces(i as nat),
        decreases indent - i,
    {
        out.append("  ");
        i = i + 1;
        assert(out@ =~= old(out)@ + spaces(i as nat));
    }
}

fn format_plan_node(plan: &PlanNode, indent: usize, out: &mut String)
    requires
        indent < usize::MAX - plan.depth(),
    ensures
        final(out)@ == old(out)@ + plan_text(*plan, indent as nat),
    decreases plan,
{
    let ghost start = out@;
    push_spaces(indent, out);
    let head = format_head(plan);
    out.append(head.as_str());
    let ghost mid = out@;
    match &plan.kind {
        PlanNodeKind::Filter(f) => format_plan_node(&f.child, indent + 1, out),
        PlanNodeKind::Projection(pp) => format_plan_node(&pp.child, indent + 1, out),
        PlanNodeKind::Insert(ip) => format_plan_node(&ip.child, indent + 1, out),
        PlanNodeKind::Update(up) => format_plan_node(&up.child, indent + 1, out),
        PlanNodeKind::Delete(d) => format_plan_node(&d.child, indent + 1, out),
        PlanNodeKind::NestedLoopJoin(j) => {
            format_plan_node(&j.left, indent + 1, out);
            format_plan_node(&j.right, indent + 1, out);
        },
        PlanNodeKind::NestedIndexJoin(j) => format_plan_node(&j.child, indent + 1, out),
        _ => {},
    }
    assert(out@ =~= start + plan_text(*plan, indent as nat));
}

/// The line of a plan node, without its indentation.
fn format_head(plan: &PlanNode) -> (res: String)
    ensures
        res@ == head_text(*plan),
{
    let mut out = String::new();
    match &plan.kind {
        PlanNodeKind::SeqScan(s) => {
            out.append("SeqScan table=");
            out.append(s.table_name.as_str());
            if let Some(predicate) = &s.filter_predicate {
                out.append(" filter=");
                let t = format_expr(predicate);
                out.append(t.as_str());
            }
        },
        PlanNodeKind::Filter(f) => {
            out.append("Filter predicate=");
            let t = format_expr(&f.predicate);
            out.append(t.as_str());
        },
        PlanNodeKind::Projection(pp) => {
            out.append("Projection exprs=[");
            let t = format_list(pp.expressions.as_slice());
            out.append(t.as_str());
            out.append("]");
        },
        PlanNodeKind::Values(v) => {
            out.append("Values rows=");
            let t = usize_to_string(v.rows.len());
            out.append(t.as_str());
        },
        PlanNodeKind::Insert(ip) => {
            out.append("Insert table=");
            out.append(ip.table_name.as_str());
        },
        PlanNodeKind::CreateTable(c) => {
            out.append("CreateTable table=");
            out.append(c.name.as_str());
        },
        PlanNodeKind::Update(up) => {
            out.append("Update table=");
            out.append(up.table_name.as_str());
            out.append(" exprs=[");
            let t = format_list(up.expressions.as_slice());
            out.append(t.as_str());
            out.append("]");
        },
        PlanNodeKind::Delete(d) => {
            out.append("Delete table_oid=");
            let t = usize_to_string(d.table_oid as usize);
            out.append(t.as_str());
        },
        PlanNodeKind::NestedLoopJoin(j) => {
            out.append("NestedLoopJoin type=");
            out.append(format_join_type(j.join_type));
            if let Some(predicate) = &j.predicate {
                out.append(" predicate=");
                let t = format_expr(predicate);
                out.append(t.as_str());
            }
        },
        PlanNodeKind::NestedIndexJoin(j) => {
            out.append("NestedIndexJoin type=");
            out.append(format_join_type(j.join_type));
            out.append(" index=");
            out.append(j.inner_table_index_name.as_str());
        },
    }
    out.append("\n");
    assert(out@ =~= head_text(*plan));
    out
}

/// Expressions separated by `, `.
fn format_list(es: &[PlannedExpression]) -> (res: String)
    ensures
        res@ == list_text(es@, es@.len() as int),
{
    let mut out = String::new();
    assert(out@ =~= list_text(es@, 0));
    let mut i: usize = 0;
    while i < es.len()
        invariant
            i <= es@.len(),
            out@ == list_text(es@, i as int),
        decreases es@.len() - i,
    {
        if i > 0 {
            out.append(", ");
        }
        let t = format_expr(&es[i]);
        out.append(t.as_str());
        i = i + 1;
        assert(out@ =~= list_text(es@, i as int));
    }
    out
}

/// An expression in infix form.
fn format_expr(expr: &PlannedExpression) -> (res: String)
    ensures
        res@ == expr_text(*expr),
    decreases expr,
{
    match &expr.kind {
        PlannedExpressionKind::ColumnValue(c) => {
            let a = usize_to_string(c.tuple_idx);
            let b = usize_to_string(c.col_idx);
            let mut out = concat3("#", a.as_str(), ".");
            out.append(b.as_str());
            out
        },
        PlannedExpressionKind::ConstantValue(c) => format_value(&c.value),
        PlannedExpressionKind::Comparison(c) => {
            let l = format_expr(&c.left);
            let r = format_expr(&c.right);
            binary_text(l.as_str(), format_comparison_type(c.comparison_type), r.as_str())
        },
        PlannedExpressionKind::Arithmetic(c) => {
            let l = format_expr(&c.left);
            let r = format_expr(&c.right);
            binary_text(l.as_str(), format_arithmetic_type(c.arithmetic_type), r.as_str())
        },
        PlannedExpressionKind::Logic(c) => {
            let l = format_expr(&c.left);
            let r = format_expr(&c.right);
            binary_text(l.as_str(), format_logic_type(c.logic_type), r.as_str())
        },
        PlannedExpressionKind::Not(c) => {
            let x = format_expr(&c.expr);
            let mut out = String::new();
            out.append("NOT ");
            out.append(x.as_str());
            out
        },
        PlannedExpressionKind::Negate(c) => {
            let x = format_expr(&c.expr);
            let mut out = String::new();
            out.append("-");
            out.append(x.as_str());
            out
        },
        PlannedExpressionKind::NullCheck(c) => {
            let x = format_expr(&c.expr);
            concat3(x.as_str(), " ", format_null_check_type(c.null_check_type))
        },
    }
}

/// `(<left> <operator> <right>)`.
fn binary_text(l: &str, op: &str, r: &str) -> (res: String)
    ensures
        res@ == "("@ + l@ + " "@ + op@ + " "@ + r@ + ")"@,
{
    let mut out = String::new();
    out.append("(");
    out.append(l);
    out.append(" ");
    out.append(op);
    out.append(" ");
    out.append(r);
    out.append(")");
    out
}

fn format_value(value: &Value) -> (res: String)
    ensures
        res@ == value_text(*value),
{
    match value {
        Value::Boolean(b) => if *b {
            "true".to_string()
        } else {
            "false".to_string()
        },
        Value::SmallInt(i) => i64_to_string(*i as i64),
        Value::Integer(i) => i64_to_string(*i as i64),
        Value::BigInt(i) => i64_to_string(*i),
        Value::Varchar(s) => concat3("'", s.as_str(), "'"),
        Value::Null(_) => "NULL".to_string(),
    }
}

fn format_comparison_type(t: ComparisonType) -> (res: &'static str)
    ensures
        res@ == comparison_text(t),
{
    match t {
        ComparisonType::Eq => "=",
        ComparisonType::NotEq => "!=",
        ComparisonType::LessThan => "<",
        ComparisonType::LessThanOrEqual => "<=",
        ComparisonType::GreaterThan => ">",
        ComparisonType::GreaterThanOrEqual => ">=",
    }
}

fn format_arithmetic_type(t: ArithmeticType) -> (res: &'static str)
    ensures
        res@ == arithmetic_text(t),
{
    match t {
        ArithmeticType::Plus => "+",
        ArithmeticType::Minus => "-",
    }
}

fn format_logic_type(t: LogicType) -> (res: &'static str)
    ensures
        res@ == logic_text(t),
{
    match t {
        LogicType::And => "AND",
        LogicType::Or => "OR",
    }
}

fn format_null_check_type(t: NullCheckType) -> (res: &'static str)
    ensures
        res@ == null_check_text(t),
{
    match t {
        NullCheckType::IsNull => "IS NULL",
        NullCheckType::IsNotNull => "IS NOT NULL",
    }
}

fn format_join_type(t: JoinType) -> (res: &'static str)
    ensures
        res@ == join_type_text(t),
{
    match t {
        JoinType::Inner => "inner",
        JoinType::Left => "left",
        JoinType::Cross => "cross",
    }
}

} // verus!
