use vstd::prelude::*;
use crate::catalog::catalog::Catalog;
use crate::catalog::schema::Schema;
use crate::common::position::index_of;
use crate::query::executor::delete::{DeleteExecutor, delete_effect, rows_target_live};
use crate::query::executor::error::ExecutionError;
use crate::query::executor::filter::{FilterExecutor, filter_rows, rows_wide};
use crate::query::executor::insert::{InsertExecutor, count_row, insert_effect, insert_fits};
use crate::query::executor::expression::refs_ok;
use crate::query::executor::projection::{ProjectionExecutor, all_refs_ok, eval_list, lemma_eval_list_len, project_rows};
use crate::query::executor::seq_scan::{SeqScanExecutor, live_rows, scan_output};
use crate::query::executor::update::{UpdateExecutor, update_effect};
use crate::query::executor::values::{ValuesExecutor, values_rows};
use crate::query::planner::plan::{PlanNode, PlanNodeKind, rows_view};
use crate::storage::tuple::Rid;
use crate::types::value::Value;

verus! {

/// A row produced by an executor, with the record id of the tuple it was
/// read from, if any.
#[derive(Debug, PartialEq)]
pub struct ExecutorRow {
    pub rid: Option<Rid>,
    pub values: Vec<Value>,
}

/// What a row holds.
pub struct RowView {
    pub rid: Option<Rid>,
    pub values: Seq<Value>,
}

impl View for ExecutorRow {
    type V = RowView;

    open spec fn view(&self) -> RowView {
        RowView { rid: self.rid, values: self.values@ }
    }
}

pub open spec fn rows_of(rows: Seq<ExecutorRow>) -> Seq<RowView> {
    rows.map_values(|r: ExecutorRow| r@)
}

pub open spec fn res_view(res: Result<Vec<ExecutorRow>, ExecutionError>) -> Result<Seq<RowView>, ExecutionError> {
    match res {
        Ok(v) => Ok(rows_of(v@)),
        Err(e) => Err(e),
    }
}

/// The rows of a query and the schema they follow.
#[derive(Debug)]
pub struct ExecutionResult {
    pub schema: Schema,
    pub rows: Vec<ExecutorRow>,
}

pub open spec fn min_len(a: nat, b: nat) -> nat {
    if a <= b { a } else { b }
}

/// `batch` is the front of `before`, at most `n` items, and `after` the
/// rest: one step of reading `before` in batches.
pub open spec fn batch_step<T>(before: Seq<T>, n: nat, batch: Seq<T>, after: Seq<T>) -> bool {
    let k = min_len(n, before.len()) as int;
    &&& batch == before.take(k)
    &&& after == before.skip(k)
}

/// The items of `batches`, one batch after another.
pub open spec fn concat_batches<T>(batches: Seq<Seq<T>>) -> Seq<T>
    decreases batches.len(),
{
    if batches.len() == 0 {
        Seq::empty()
    } else {
        concat_batches(batches.drop_last()) + batches.last()
    }
}

proof fn lemma_batches_then_rest<T>(states: Seq<Seq<T>>, batches: Seq<Seq<T>>, n: nat)
    requires
        states.len() == batches.len() + 1,
        forall|i: int| 0 <= i < batches.len() ==> #[trigger] batch_step(states[i], n, batches[i], states[i + 1]),
    ensures
        concat_batches(batches) + states.last() == states[0],
    decreases batches.len(),
{
    if batches.len() == 0 {
        assert(concat_batches(batches) + states.last() =~= states[0]);
    } else {
        let m = batches.len() - 1;
        assert forall|i: int| 0 <= i < batches.drop_last().len() implies #[trigger] batch_step(states.drop_last()[i], n, batches.drop_last()[i], states.drop_last()[i + 1]) by {
            assert(batch_step(states[i], n, batches[i], states[i + 1]));
        }
        lemma_batches_then_rest(states.drop_last(), batches.drop_last(), n);
        assert(batch_step(states[m], n, batches[m], states[m + 1]));
        let k = min_len(n, states[m].len()) as int;
        assert(states[m].take(k) + states[m].skip(k) =~= states[m]);
        assert(concat_batches(batches) + states.last() =~= concat_batches(batches.drop_last()) + (batches[m] + states[m + 1]));
    }
}

/// Reading in batches of `n >= 1` items until the first empty batch gives
/// back every item, in order, and leaves nothing: the batches before the
/// empty one hold `n` items each, but the last of them, which holds 1 to
/// `n`.
pub proof fn lemma_batches_read_all<T>(states: Seq<Seq<T>>, batches: Seq<Seq<T>>, n: nat)
    requires
        n > 0,
        batches.len() > 0,
        states.len() == batches.len() + 1,
        forall|i: int| 0 <= i < batches.len() ==> #[trigger] batch_step(states[i], n, batches[i], states[i + 1]),
        forall|i: int| 0 <= i < batches.len() - 1 ==> (#[trigger] batches[i]).len() > 0,
        batches.last().len() == 0,
    ensures
        concat_batches(batches) == states[0],
        states.last().len() == 0,
        forall|i: int| 0 <= i < batches.len() - 1 ==> 1 <= (#[trigger] batches[i]).len() <= n,
        forall|i: int| 0 <= i < batches.len() - 2 ==> (#[trigger] batches[i]).len() == n,
{
    let m = batches.len() - 1;
    assert(batch_step(states[m], n, batches[m], states[m + 1]));
    assert(states[m].len() == 0);
    lemma_batches_then_rest(states, batches, n);
    assert(concat_batches(batches) =~= states[0]);
    assert forall|i: int| 0 <= i < batches.len() - 2 implies (#[trigger] batches[i]).len() == n by {
        assert(batch_step(states[i], n, batches[i], states[i + 1]));
        let j = i + 1;
        assert(batch_step(states[j], n, batches[j], states[j + 1]));
        assert(batches[j].len() > 0);
    }
    assert forall|i: int| 0 <= i < batches.len() - 1 implies 1 <= (#[trigger] batches[i]).len() <= n by {
        assert(batch_step(states[i], n, batches[i], states[i + 1]));
    }
}

/// Takes the next batch, at most `batch_size` rows, from the front of
/// `rows`.
pub fn take_batch(rows: &mut Vec<ExecutorRow>, batch_size: usize) -> (res: Vec<ExecutorRow>)
    ensures
        rows_of(res@) == rows_of(old(rows)@).take(min_len(batch_size as nat, old(rows)@.len()) as int),
        rows_of(final(rows)@) == rows_of(old(rows)@).skip(min_len(batch_size as nat, old(rows)@.len()) as int),
{
    let ghost all = rows_of(rows@);
    let mut res: Vec<ExecutorRow> = Vec::new();
    while res.len() < batch_size && rows.len() > 0
        invariant
            res@.len() <= batch_size,
            res@.len() + rows@.len() == all.len(),
            rows_of(res@) == all.take(res@.len() as int),
            rows_of(rows@) == all.skip(res@.len() as int),
        decreases rows@.len(),
    {
        let ghost before = rows@;
        let r = rows.remove(0);
        let ghost k: int = res@.len() as int;
        res.push(r);
        assert(rows_of(res@) =~= all.take(k + 1)) by {
            assert(rows_of(before)[0] == r@);
        }
        assert(rows_of(rows@) =~= all.skip(k + 1)) by {
            assert forall|i: int| 0 <= i < rows@.len() implies #[trigger] rows_of(rows@)[i] == all.skip(k + 1)[i] by {
                assert(rows@[i] == before[i + 1]);
                assert(rows_of(before)[i + 1] == all.skip(k)[i + 1]);
            }
        }
    }
    res
}


// ---------------------------------------------------------------------
// Running plans
// ---------------------------------------------------------------------

/// The rows a plan node that only reads produces.
pub open spec fn node_rows(cat: Catalog, p: PlanNode) -> Result<Seq<RowView>, ExecutionError>
    decreases p,
{
    match p.kind {
        PlanNodeKind::SeqScan(s) => scan_output(cat, s.table_oid),
        PlanNodeKind::Filter(f) => match node_rows(cat, *f.child) {
            Err(e) => Err(e),
            Ok(rows) => filter_rows(f.predicate, rows, rows.len() as int),
        },
        PlanNodeKind::Projection(pp) => match node_rows(cat, *pp.child) {
            Err(e) => Err(e),
            Ok(rows) => project_rows(pp.expressions@, rows, rows.len() as int),
        },
        PlanNodeKind::Values(v) => values_rows(rows_view(v.rows@), v.rows@.len() as int),
        _ => Err(ExecutionError::UnsupportedPlan),
    }
}

/// How many values each row of a reading plan node holds.
pub open spec fn node_width(cat: Catalog, p: PlanNode) -> nat
    decreases p,
{
    match p.kind {
        PlanNodeKind::SeqScan(s) => if s.table_oid < cat.tables@.len() {
            cat.tables@[s.table_oid as int].schema.columns@.len()
        } else {
            0
        },
        PlanNodeKind::Filter(f) => node_width(cat, *f.child),
        PlanNodeKind::Projection(pp) => pp.expressions@.len(),
        PlanNodeKind::Values(v) => if v.rows@.len() > 0 { v.rows@[0]@.len() } else { 0 },
        _ => 0,
    }
}

/// A reading plan node whose expressions refer only to columns of their
/// input rows.
pub open spec fn reads_ok(cat: Catalog, p: PlanNode) -> bool
    decreases p,
{
    match p.kind {
        PlanNodeKind::SeqScan(_) => true,
        PlanNodeKind::Filter(f) => reads_ok(cat, *f.child) && refs_ok(f.predicate, node_width(cat, *f.child), 0),
        PlanNodeKind::Projection(pp) => reads_ok(cat, *pp.child) && all_refs_ok(pp.expressions@, node_width(cat, *pp.child)),
        PlanNodeKind::Values(v) => forall|r: int| 0 <= r < v.rows@.len() ==> {
            &&& all_refs_ok((#[trigger] v.rows@[r])@, 0)
            &&& v.rows@[r]@.len() == v.rows@[0]@.len()
        },
        _ => false,
    }
}

proof fn lemma_live_rows_wide(tuples: Seq<(crate::storage::tuple::TupleMeta, crate::storage::tuple::Tuple)>, width: nat, n: int)
    requires
        n <= tuples.len(),
        forall|r: int| 0 <= r < tuples.len() ==> (#[trigger] tuples[r]).1.values@.len() == width,
    ensures
        rows_wide(live_rows(tuples, n), width),
    decreases n,
{
    if n > 0 {
        lemma_live_rows_wide(tuples, width, n - 1);
    }
}

proof fn lemma_filter_rows_wide(pred: crate::query::planner::expression::PlannedExpression, rows: Seq<RowView>, width: nat, n: int)
    requires
        n <= rows.len(),
        rows_wide(rows, width),
    ensures
        filter_rows(pred, rows, n) matches Ok(out) ==> rows_wide(out, width),
    decreases n,
{
    if n > 0 {
        lemma_filter_rows_wide(pred, rows, width, n - 1);
    }
}

proof fn lemma_project_rows_wide(es: Seq<crate::query::planner::expression::PlannedExpression>, rows: Seq<RowView>, n: int)
    ensures
        project_rows(es, rows, n) matches Ok(out) ==> rows_wide(out, es.len()),
    decreases n,
{
    if n > 0 {
        lemma_project_rows_wide(es, rows, n - 1);
        if n - 1 >= 0 {
            lemma_eval_list_len(es, rows[n - 1].values, es.len() as int);
        }
    }
}

proof fn lemma_values_rows_wide(rows: Seq<Seq<crate::query::planner::expression::PlannedExpression>>, width: nat, n: int)
    requires
        n <= rows.len(),
        forall|r: int| 0 <= r < rows.len() ==> (#[trigger] rows[r]).len() == width,
    ensures
        values_rows(rows, n) matches Ok(out) ==> rows_wide(out, width),
    decreases n,
{
    if n > 0 {
        lemma_values_rows_wide(rows, width, n - 1);
        lemma_eval_list_len(rows[n - 1], Seq::empty(), rows[n - 1].len() as int);
    }
}

/// The rows of a reading plan node are as wide as the node says.
pub proof fn lemma_node_rows_wide(cat: Catalog, p: PlanNode)
    requires
        cat.wf(),
        reads_ok(cat, p),
    ensures
        node_rows(cat, p) matches Ok(rows) ==> rows_wide(rows, node_width(cat, p)),
    decreases p,
{
    match p.kind {
        PlanNodeKind::SeqScan(s) => {
            if s.table_oid < cat.tables@.len() {
                let t = cat.tables@[s.table_oid as int];
                assert forall|r: int| 0 <= r < t.table_heap.tuples@.len() implies (#[trigger] t.table_heap.tuples@[r]).1.values@.len() == t.schema.columns@.len() by {
                    assert(t.table_heap.values(r).len() == t.schema.columns@.len());
                }
                lemma_live_rows_wide(t.table_heap.tuples@, t.schema.columns@.len(), t.table_heap.tuples@.len() as int);
            }
        },
        PlanNodeKind::Filter(f) => {
            lemma_node_rows_wide(cat, *f.child);
            if let Ok(rows) = node_rows(cat, *f.child) {
                lemma_filter_rows_wide(f.predicate, rows, node_width(cat, *f.child), rows.len() as int);
            }
        },
        PlanNodeKind::Projection(pp) => {
            if let Ok(rows) = node_rows(cat, *pp.child) {
                lemma_project_rows_wide(pp.expressions@, rows, rows.len() as int);
            }
        },
        PlanNodeKind::Values(v) => {
            let rs = rows_view(v.rows@);
            if v.rows@.len() > 0 {
                assert forall|r: int| 0 <= r < rs.len() implies (#[trigger] rs[r]).len() == v.rows@[0]@.len() by {
                    assert(v.rows@[r]@.len() == v.rows@[0]@.len());
                }
                lemma_values_rows_wide(rs, v.rows@[0]@.len(), rs.len() as int);
            }
        },
        _ => {},
    }
}


/// A reading executor's rows, taken batch by batch until a batch comes back
/// empty.
pub fn collect_batches(output: &mut Vec<ExecutorRow>, batch_size: usize) -> (res: Vec<ExecutorRow>)
    requires
        batch_size > 0,
    ensures
        rows_of(res@) == rows_of(old(output)@),
        final(output)@.len() == 0,
{
    let ghost all = rows_of(output@);
    let mut rows: Vec<ExecutorRow> = Vec::new();
    let mut finished = false;
    while !finished
        invariant
            batch_size > 0,
            rows_of(rows@) + rows_of(output@) == all,
            finished ==> output@.len() == 0,
        decreases output@.len() + (if finished { 0int } else { 1int }),
    {
        let ghost before_rows = rows_of(rows@);
        let ghost before_out = rows_of(output@);
        let mut batch = take_batch(output, batch_size);
        if batch.len() == 0 {
            assert(rows_of(batch@).len() == 0);
            assert(before_out.take(min_len(batch_size as nat, before_out.len()) as int).len() == 0);
            assert(before_out.len() == 0);
            assert(rows_of(output@).len() == output@.len());
            assert(rows_of(output@) =~= before_out);
            finished = true;
        } else {
            let ghost b = rows_of(batch@);
            rows.append(&mut batch);
            assert(rows_of(rows@) =~= before_rows + b);
            assert(rows_of(rows@) + rows_of(output@) =~= all) by {
                assert(before_out =~= b + rows_of(output@));
            }
        }
    }
    rows
}

/// Runs a reading plan node: its executor over the rows of its input.
pub fn run_reader(catalog: &Catalog, plan: &PlanNode, batch_size: usize) -> (res: Result<Vec<ExecutorRow>, ExecutionError>)
    requires
        catalog.wf(),
        reads_ok(*catalog, *plan),
        batch_size > 0,
    ensures
        res_view(res) == node_rows(*catalog, *plan),
    decreases plan,
{
    match &plan.kind {
        PlanNodeKind::SeqScan(s) => {
            let mut ex = SeqScanExecutor::new(s, &plan.output_schema);
            ex.init(catalog)?;
            Ok(collect_batches(&mut ex.output, batch_size))
        },
        PlanNodeKind::Filter(f) => {
            let input = run_reader(catalog, &f.child, batch_size)?;
            proof { lemma_node_rows_wide(*catalog, *f.child); }
            let mut ex = FilterExecutor::new(f, &plan.output_schema, input);
            ex.init(Ghost(node_width(*catalog, *f.child)))?;
            Ok(collect_batches(&mut ex.output, batch_size))
        },
        PlanNodeKind::Projection(pp) => {
            let input = run_reader(catalog, &pp.child, batch_size)?;
            proof { lemma_node_rows_wide(*catalog, *pp.child); }
            let mut ex = ProjectionExecutor::new(pp, &plan.output_schema, input);
            ex.init(Ghost(node_width(*catalog, *pp.child)))?;
            Ok(collect_batches(&mut ex.output, batch_size))
        },
        PlanNodeKind::Values(v) => {
            let mut ex = ValuesExecutor::new(v, &plan.output_schema);
            ex.init()?;
            Ok(collect_batches(&mut ex.output, batch_size))
        },
        _ => {
            assert(false);
            Err(ExecutionError::UnsupportedPlan)
        },
    }
}


/// A plan the engine runs: a reading plan, or a change to a table over a
/// reading input that fits it.
pub open spec fn plan_ok(cat: Catalog, p: PlanNode) -> bool {
    match p.kind {
        PlanNodeKind::Insert(ip) => {
            &&& reads_ok(cat, *ip.child)
            &&& insert_fits(cat, ip)
            &&& node_rows(cat, *ip.child) matches Ok(rows) ==> rows.len() <= i32::MAX
        },
        PlanNodeKind::Update(up) => {
            &&& reads_ok(cat, *up.child)
            &&& node_rows(cat, *up.child) matches Ok(rows) ==> {
                &&& rows.len() <= i32::MAX
                &&& up.table_oid < cat.tables@.len() ==> rows_target_live(cat.tables@[up.table_oid as int].table_heap.tuples@, rows)
            }
            &&& up.table_oid < cat.tables@.len() ==> {
                &&& up.expressions@.len() == cat.tables@[up.table_oid as int].schema.columns@.len()
                &&& all_refs_ok(up.expressions@, cat.tables@[up.table_oid as int].schema.columns@.len())
            }
        },
        PlanNodeKind::Delete(dp) => {
            &&& reads_ok(cat, *dp.child)
            &&& node_rows(cat, *dp.child) matches Ok(rows) ==> {
                &&& rows.len() <= i32::MAX
                &&& dp.table_oid < cat.tables@.len() ==> rows_target_live(cat.tables@[dp.table_oid as int].table_heap.tuples@, rows)
            }
        },
        PlanNodeKind::CreateTable(_) => true,
        _ => reads_ok(cat, p),
    }
}

/// What running a plan does: a reading plan produces its rows and changes
/// nothing; a change to a table first reads its input, then makes the
/// change; tables are not created by plans.
pub open spec fn outcome(before: Catalog, after: Catalog, p: PlanNode, res: Result<Seq<RowView>, ExecutionError>) -> bool {
    match p.kind {
        PlanNodeKind::Insert(ip) => match node_rows(before, *ip.child) {
            Err(e) => res == Err::<Seq<RowView>, ExecutionError>(e) && after == before,
            Ok(rows) => insert_effect(before, after, ip, rows, res),
        },
        PlanNodeKind::Update(up) => match node_rows(before, *up.child) {
            Err(e) => res == Err::<Seq<RowView>, ExecutionError>(e) && after == before,
            Ok(rows) => update_effect(before, after, up, rows, res),
        },
        PlanNodeKind::Delete(dp) => match node_rows(before, *dp.child) {
            Err(e) => res == Err::<Seq<RowView>, ExecutionError>(e) && after == before,
            Ok(rows) => delete_effect(before, after, dp, rows, res),
        },
        PlanNodeKind::CreateTable(_) => res == Err::<Seq<RowView>, ExecutionError>(ExecutionError::UnsupportedPlan) && after == before,
        _ => res == node_rows(before, p) && after == before,
    }
}

pub open spec fn result_view(res: Result<ExecutionResult, ExecutionError>) -> Result<Seq<RowView>, ExecutionError> {
    match res {
        Ok(r) => Ok(rows_of(r.rows@)),
        Err(e) => Err(e),
    }
}

/// Runs plans against a catalog.
pub struct ExecutionEngine<'a> {
    pub catalog: &'a mut Catalog,
}

impl<'a> ExecutionEngine<'a> {
    pub fn new(catalog: &'a mut Catalog) -> (res: Self)
        ensures
            *res.catalog == *old(catalog),
    {
        ExecutionEngine { catalog }
    }

    /// Runs a plan, taking the rows of its root executor batch by batch.
    pub fn execute(&mut self, plan: PlanNode, batch_size: usize) -> (res: Result<ExecutionResult, ExecutionError>)
        requires
            old(self).catalog.wf(),
            plan_ok(*old(self).catalog, plan),
            batch_size > 0,
        ensures
            final(self).catalog.wf(),
            outcome(*old(self).catalog, *final(self).catalog, plan, result_view(res)),
            res matches Ok(r) ==> r.schema@ == plan.output_schema@,
    {
        execute_plan(self.catalog, plan, batch_size)
    }
}

/// Runs a plan against `catalog`, taking the rows of its root executor
/// batch by batch.
pub fn execute_plan(catalog: &mut Catalog, plan: PlanNode, batch_size: usize) -> (res: Result<ExecutionResult, ExecutionError>)
    requires
        old(catalog).wf(),
        plan_ok(*old(catalog), plan),
        batch_size > 0,
    ensures
        final(catalog).wf(),
        outcome(*old(catalog), *final(catalog), plan, result_view(res)),
        res matches Ok(r) ==> r.schema@ == plan.output_schema@,
{
    let rows: Vec<ExecutorRow> = match &plan.kind {
        PlanNodeKind::Insert(ip) => {
            let input = run_reader(catalog, &ip.child, batch_size)?;
            let mut ex = InsertExecutor::new(ip, &plan.output_schema, input);
            let mut rows = ex.next(catalog, batch_size)?;
            let mut more = ex.next(catalog, batch_size)?;
            rows.append(&mut more);
            rows
        },
        PlanNodeKind::Update(up) => {
            let input = run_reader(catalog, &up.child, batch_size)?;
            let mut ex = UpdateExecutor::new(up, &plan.output_schema, input);
            let mut rows = ex.next(catalog, batch_size)?;
            let mut more = ex.next(catalog, batch_size)?;
            rows.append(&mut more);
            rows
        },
        PlanNodeKind::Delete(dp) => {
            let input = run_reader(catalog, &dp.child, batch_size)?;
            let mut ex = DeleteExecutor::new(dp, &plan.output_schema, input);
            let mut rows = ex.next(catalog, batch_size)?;
            let mut more = ex.next(catalog, batch_size)?;
            rows.append(&mut more);
            rows
        },
        PlanNodeKind::CreateTable(_) => {
            return Err(ExecutionError::UnsupportedPlan);
        },
        _ => run_reader(catalog, &plan, batch_size)?,
    };
    let schema = plan.output_schema.clone();
    Ok(ExecutionResult { schema, rows })
}

} // verus!
