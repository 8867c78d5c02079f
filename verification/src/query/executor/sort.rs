use vstd::prelude::*;
use std::cmp::Ordering;
use crate::catalog::schema::Schema;
use crate::common::position::index_of;
use crate::common::strings::{chars_lt, lemma_chars_lt_transitive, lemma_chars_lt_trichotomy};
use crate::query::executor::engine::{ExecutorRow, RowView, batch_step, concat_batches, lemma_batches_read_all, min_len, rows_of};
use crate::query::executor::error::ExecutionError;
use crate::query::executor::expression::{
    eval_comparison_is_true, generate_sort_key, lemma_sort_key_len, orders_refs_ok, row_key,
    spec_compare, spec_keep,
};
use crate::query::planner::expression::{ComparisonType, clone_expr};
use crate::query::planner::plan::{PlannedOrderBy, SortPlan};
use crate::query::statement::{OrderByNullType, OrderByType};
use crate::types::value::Value;

verus! {

/// Whether `v` is `Ok(true)`, `Ok(false)` or an error.
pub open spec fn kept(res: Result<bool, ExecutionError>) -> Option<bool> {
    match res {
        Ok(b) => Some(b),
        Err(_) => None,
    }
}

/// How two sort keys compare from position `i` on: a NULL sorts first or
/// last as its ORDER BY says, equal values defer to the next position, and
/// the first unequal pair decides, reversed for DESC. `None` where two
/// values cannot be compared.
pub open spec fn key_order(a: Seq<Value>, b: Seq<Value>, obs: Seq<PlannedOrderBy>, i: int) -> Option<Ordering>
    decreases a.len() - i,
{
    if i >= a.len() || i < 0 {
        Some(Ordering::Equal)
    } else {
        let v1 = a[i];
        let v2 = b[i];
        let ob = obs[i];
        if v1 is Null && v2 is Null {
            key_order(a, b, obs, i + 1)
        } else if v1 is Null {
            Some(if ob.null_type == OrderByNullType::First { Ordering::Less } else { Ordering::Greater })
        } else if v2 is Null {
            Some(if ob.null_type == OrderByNullType::First { Ordering::Greater } else { Ordering::Less })
        } else {
            match kept(spec_keep(spec_compare(v1, v2, ComparisonType::Eq))) {
                None => None,
                Some(true) => key_order(a, b, obs, i + 1),
                Some(false) => match kept(spec_keep(spec_compare(v1, v2, ComparisonType::LessThan))) {
                    None => None,
                    Some(lt) => Some(
                        if lt == (ob.order_by_type == OrderByType::Asc) { Ordering::Less } else { Ordering::Greater },
                    ),
                },
            }
        }
    }
}

/// An order seen from the other side.
pub open spec fn reversed(o: Option<Ordering>) -> Option<Ordering> {
    match o {
        Some(Ordering::Less) => Some(Ordering::Greater),
        Some(Ordering::Greater) => Some(Ordering::Less),
        _ => o,
    }
}

/// Comparing two values the other way round: equality gives the same
/// answer, and of two unequal values exactly one is less than the other.
proof fn lemma_compare_swapped(v1: Value, v2: Value)
    requires
        !(v1 is Null),
        !(v2 is Null),
    ensures
        kept(spec_keep(spec_compare(v2, v1, ComparisonType::Eq))) == kept(spec_keep(spec_compare(v1, v2, ComparisonType::Eq))),
        kept(spec_keep(spec_compare(v1, v2, ComparisonType::Eq))) == Some(false) ==> {
            &&& kept(spec_keep(spec_compare(v1, v2, ComparisonType::LessThan))) is Some
            &&& kept(spec_keep(spec_compare(v2, v1, ComparisonType::LessThan))) is Some
            &&& kept(spec_keep(spec_compare(v1, v2, ComparisonType::LessThan)))
                != kept(spec_keep(spec_compare(v2, v1, ComparisonType::LessThan)))
        },
{
    match (v1, v2) {
        (Value::Varchar(a), Value::Varchar(b)) => {
            lemma_chars_lt_trichotomy(a@, b@);
        },
        _ => {},
    }
}

/// Comparing two keys the other way round gives the reverse order.
pub proof fn lemma_key_order_reversed(a: Seq<Value>, b: Seq<Value>, obs: Seq<PlannedOrderBy>, i: int)
    requires
        a.len() == b.len(),
    ensures
        key_order(b, a, obs, i) == reversed(key_order(a, b, obs, i)),
    decreases a.len() - i,
{
    if i >= a.len() || i < 0 {
    } else if a[i] is Null && b[i] is Null {
        lemma_key_order_reversed(a, b, obs, i + 1);
    } else if a[i] is Null || b[i] is Null {
    } else {
        lemma_compare_swapped(a[i], b[i]);
        lemma_key_order_reversed(a, b, obs, i + 1);
    }
}

/// How two values compare at one ORDER BY position: as `key_order` does at
/// that position.
pub open spec fn value_order(v1: Value, v2: Value, ob: PlannedOrderBy) -> Option<Ordering> {
    if v1 is Null && v2 is Null {
        Some(Ordering::Equal)
    } else if v1 is Null {
        Some(if ob.null_type == OrderByNullType::First { Ordering::Less } else { Ordering::Greater })
    } else if v2 is Null {
        Some(if ob.null_type == OrderByNullType::First { Ordering::Greater } else { Ordering::Less })
    } else {
        match kept(spec_keep(spec_compare(v1, v2, ComparisonType::Eq))) {
            None => None,
            Some(true) => Some(Ordering::Equal),
            Some(false) => match kept(spec_keep(spec_compare(v1, v2, ComparisonType::LessThan))) {
                None => None,
                Some(lt) => Some(if lt == (ob.order_by_type == OrderByType::Asc) { Ordering::Less } else { Ordering::Greater }),
            },
        }
    }
}

proof fn lemma_key_order_step(a: Seq<Value>, b: Seq<Value>, obs: Seq<PlannedOrderBy>, i: int)
    requires
        0 <= i < a.len(),
    ensures
        key_order(a, b, obs, i) == match value_order(a[i], b[i], obs[i]) {
            Some(Ordering::Equal) => key_order(a, b, obs, i + 1),
            o => o,
        },
{
}

/// Two steps of an order chained: an equal step gives the other one.
pub open spec fn then_order(x: Ordering, y: Ordering) -> Ordering {
    match x {
        Ordering::Equal => y,
        _ => x,
    }
}

/// At one position, comparable values are ordered transitively, and values
/// equal to a third compare alike with it.
proof fn lemma_value_order_transitive(v1: Value, v2: Value, v3: Value, ob: PlannedOrderBy)
    requires
        value_order(v1, v2, ob) matches Some(x) && x != Ordering::Greater,
        value_order(v2, v3, ob) matches Some(y) && y != Ordering::Greater,
        value_order(v1, v3, ob) is Some,
    ensures
        value_order(v1, v3, ob) == Some(then_order(value_order(v1, v2, ob)->0, value_order(v2, v3, ob)->0)),
{
    match (v1, v2, v3) {
        (Value::Varchar(a), Value::Varchar(b), Value::Varchar(c)) => {
            lemma_chars_lt_trichotomy(a@, b@);
            lemma_chars_lt_trichotomy(b@, c@);
            lemma_chars_lt_trichotomy(a@, c@);
            if chars_lt(a@, b@) && chars_lt(b@, c@) {
                lemma_chars_lt_transitive(a@, b@, c@);
            }
            if chars_lt(c@, b@) && chars_lt(b@, a@) {
                lemma_chars_lt_transitive(c@, b@, a@);
            }
        },
        _ => {},
    }
}

/// Comparable keys are ordered transitively.
pub proof fn lemma_key_order_transitive(a: Seq<Value>, b: Seq<Value>, c: Seq<Value>, obs: Seq<PlannedOrderBy>, i: int)
    requires
        0 <= i,
        a.len() == b.len(),
        b.len() == c.len(),
        key_order(a, b, obs, i) matches Some(x) && x != Ordering::Greater,
        key_order(b, c, obs, i) matches Some(y) && y != Ordering::Greater,
        key_order(a, c, obs, i) is Some,
    ensures
        key_order(a, c, obs, i) == Some(then_order(key_order(a, b, obs, i)->0, key_order(b, c, obs, i)->0)),
    decreases a.len() - i,
{
    if i < a.len() {
        lemma_key_order_step(a, b, obs, i);
        lemma_key_order_step(b, c, obs, i);
        lemma_key_order_step(a, c, obs, i);
        lemma_value_order_transitive(a[i], b[i], c[i], obs[i]);
        if value_order(a[i], b[i], obs[i]) == Some(Ordering::Equal) && value_order(b[i], c[i], obs[i]) == Some(Ordering::Equal) {
            lemma_key_order_transitive(a, b, c, obs, i + 1);
        }
    }
}

/// Compares sort keys using the planned ORDER BY clauses.
pub struct TupleComparator {
    pub order_bys: Vec<PlannedOrderBy>,
}

impl TupleComparator {
    pub fn new(order_bys: Vec<PlannedOrderBy>) -> (res: Self)
        ensures
            res.order_bys@ == order_bys@,
    {
        TupleComparator { order_bys }
    }

    /// Compares two keys position by position.
    pub fn compare_keys(&self, key_a: &Vec<Value>, key_b: &Vec<Value>) -> (res: Ordering)
        requires
            key_a@.len() == key_b@.len(),
            key_a@.len() == self.order_bys@.len(),
            key_order(key_a@, key_b@, self.order_bys@, 0) is Some,
        ensures
            key_order(key_a@, key_b@, self.order_bys@, 0) == Some(res),
    {
        let mut i: usize = 0;
        while i < key_a.len()
            invariant
                i <= key_a@.len(),
                key_a@.len() == key_b@.len(),
                key_a@.len() == self.order_bys@.len(),
                key_order(key_a@, key_b@, self.order_bys@, index_of(i)) == key_order(key_a@, key_b@, self.order_bys@, 0),
                key_order(key_a@, key_b@, self.order_bys@, 0) is Some,
            decreases key_a@.len() - i,
        {
            let v1 = &key_a[i];
            let v2 = &key_b[i];
            let order_by = &self.order_bys[i];
            let n1 = v1.is_null();
            let n2 = v2.is_null();
            if n1 && n2 {
                i = i + 1;
                continue;
            }
            if n1 {
                return match order_by.null_type {
                    OrderByNullType::First => Ordering::Less,
                    OrderByNullType::Last => Ordering::Greater,
                };
            }
            if n2 {
                return match order_by.null_type {
                    OrderByNullType::First => Ordering::Greater,
                    OrderByNullType::Last => Ordering::Less,
                };
            }
            let eq = eval_comparison_is_true(v1.clone(), v2.clone(), ComparisonType::Eq);
            match eq {
                Ok(true) => {
                    i = i + 1;
                    continue;
                },
                Ok(false) => {},
                Err(_) => {
                    assert(false);
                    return Ordering::Equal;
                },
            }
            let lt = eval_comparison_is_true(v1.clone(), v2.clone(), ComparisonType::LessThan);
            match lt {
                Ok(true) => {
                    return match order_by.order_by_type {
                        OrderByType::Asc => Ordering::Less,
                        OrderByType::Desc => Ordering::Greater,
                    };
                },
                Ok(false) => {
                    return match order_by.order_by_type {
                        OrderByType::Asc => Ordering::Greater,
                        OrderByType::Desc => Ordering::Less,
                    };
                },
                Err(_) => {
                    assert(false);
                    return Ordering::Equal;
                },
            }
        }
        Ordering::Equal
    }
}

// ---------------------------------------------------------------------
// Sorting by merging runs
// ---------------------------------------------------------------------

/// A row's values with the key it is sorted by.
pub struct SortEntry {
    pub key: Vec<Value>,
    pub values: Vec<Value>,
}

/// Whether key `a` may come before key `b`.
pub open spec fn key_le(a: Seq<Value>, b: Seq<Value>, obs: Seq<PlannedOrderBy>) -> bool {
    key_order(a, b, obs, 0) != Some(Ordering::Greater)
}

/// Any two keys of `pool` can be compared.
pub open spec fn pool_comparable(pool: Set<Seq<Value>>, obs: Seq<PlannedOrderBy>) -> bool {
    forall|a: Seq<Value>, b: Seq<Value>|
        #![trigger key_order(a, b, obs, 0)]
        pool.contains(a) && pool.contains(b) ==> key_order(a, b, obs, 0) is Some
}

/// An entry's key is the key of its values, and one of `pool`.
pub open spec fn entry_ok(e: SortEntry, obs: Seq<PlannedOrderBy>, pool: Set<Seq<Value>>) -> bool {
    &&& pool.contains(e.key@)
    &&& e.key@.len() == obs.len()
    &&& row_key(obs, e.values@) == Ok::<Seq<Value>, ExecutionError>(e.key@)
}

pub open spec fn entries_ok(es: Seq<SortEntry>, obs: Seq<PlannedOrderBy>, pool: Set<Seq<Value>>) -> bool {
    forall|k: int| 0 <= k < es.len() ==> entry_ok(#[trigger] es[k], obs, pool)
}

/// The values of the entries, in order.
pub open spec fn entry_values(es: Seq<SortEntry>) -> Seq<Seq<Value>> {
    es.map_values(|e: SortEntry| e.values@)
}

/// The key of row `i` may come before that of row `j`.
pub open spec fn value_le(obs: Seq<PlannedOrderBy>, vs: Seq<Seq<Value>>, i: int, j: int) -> bool {
    row_key(obs, vs[i]) matches Ok(a) && row_key(obs, vs[j]) matches Ok(b) && key_le(a, b, obs)
}

/// Rows in the order of their keys: no row's key comes after that of a row
/// behind it.
pub open spec fn values_sorted(obs: Seq<PlannedOrderBy>, vs: Seq<Seq<Value>>) -> bool {
    forall|i: int, j: int| 0 <= i < j < vs.len() ==> #[trigger] value_le(obs, vs, i, j)
}

/// A sorted run of entries.
pub struct MergeSortRun {
    pub entries: Vec<SortEntry>,
}

impl MergeSortRun {
    pub fn new(entries: Vec<SortEntry>) -> (res: Self)
        ensures
            res.entries@ == entries@,
    {
        MergeSortRun { entries }
    }

    /// The rows of the run, in order.
    pub fn into_iter(self) -> (res: MergeSortRunIterator)
        ensures
            res.entries@ == self.entries@,
    {
        MergeSortRunIterator::new(self.entries)
    }
}

/// Hands out the rows of a run from its front.
pub struct MergeSortRunIterator {
    pub entries: Vec<SortEntry>,
}

/// Rows with the given values and no record id.
pub open spec fn plain_rows(vs: Seq<Seq<Value>>) -> Seq<RowView> {
    vs.map_values(|v: Seq<Value>| RowView { rid: None, values: v })
}

impl MergeSortRunIterator {
    pub fn new(entries: Vec<SortEntry>) -> (res: Self)
        ensures
            res.entries@ == entries@,
    {
        MergeSortRunIterator { entries }
    }

    /// The next row of the run, if any is left; a row read back from a run
    /// has no record id.
    pub fn next(&mut self) -> (res: Option<ExecutorRow>)
        ensures
            old(self).entries@.len() == 0 ==> res is None && final(self).entries@ == old(self).entries@,
            old(self).entries@.len() > 0 ==> {
                &&& res matches Some(r) && r@ == RowView { rid: None, values: old(self).entries@[0].values@ }
                &&& final(self).entries@ == old(self).entries@.drop_first()
            },
    {
        if self.entries.len() == 0 {
            return None;
        }
        let e = self.entries.remove(0);
        proof {
            assert(self.entries@ =~= old(self).entries@.drop_first());
        }
        Some(ExecutorRow { rid: None, values: e.values })
    }
}

/// What the runs hold, as a multiset of row values.
pub open spec fn runs_values(runs: Seq<MergeSortRun>) -> vstd::multiset::Multiset<Seq<Value>>
    decreases runs.len(),
{
    if runs.len() == 0 {
        vstd::multiset::Multiset::empty()
    } else {
        entry_values(runs[0].entries@).to_multiset().add(runs_values(runs.drop_first()))
    }
}

proof fn lemma_runs_values_push(runs: Seq<MergeSortRun>, r: MergeSortRun)
    ensures
        runs_values(runs.push(r)) =~= runs_values(runs).add(entry_values(r.entries@).to_multiset()),
    decreases runs.len(),
{
    broadcast use vstd::multiset::group_multiset_axioms;
    if runs.len() == 0 {
        assert(runs.push(r).drop_first() =~= Seq::<MergeSortRun>::empty());
        assert(runs.push(r)[0] == r);
        assert(runs_values(runs.push(r)) =~= entry_values(r.entries@).to_multiset().add(runs_values(Seq::<MergeSortRun>::empty())));
    } else {
        lemma_runs_values_push(runs.drop_first(), r);
        assert(runs.push(r).drop_first() =~= runs.drop_first().push(r));
        assert(runs.push(r)[0] == runs[0]);
        assert(runs_values(runs.push(r)) =~= entry_values(runs[0].entries@).to_multiset().add(runs_values(runs.drop_first().push(r))));
    }
}

proof fn lemma_no_values(es: Seq<SortEntry>)
    requires
        es.len() == 0,
    ensures
        entry_values(es).to_multiset() =~= vstd::multiset::Multiset::<Seq<Value>>::empty(),
{
    broadcast use vstd::seq_lib::group_to_multiset_ensures;
    vstd::multiset::lemma_multiset_empty_len(entry_values(es).to_multiset());
}

/// Moves the first entry of `from` to the end of `to`.
fn move_front(from: &mut Vec<SortEntry>, to: &mut Vec<SortEntry>)
    requires
        old(from)@.len() > 0,
    ensures
        final(from)@ == old(from)@.drop_first(),
        final(to)@ == old(to)@.push(old(from)@[0]),
        entry_values(final(to)@).to_multiset() =~= entry_values(old(to)@).to_multiset().insert(old(from)@[0].values@),
        entry_values(final(from)@).to_multiset() =~= entry_values(old(from)@).to_multiset().remove(old(from)@[0].values@),
        entry_values(old(from)@).to_multiset().count(old(from)@[0].values@) > 0,
{
    broadcast use vstd::seq_lib::group_to_multiset_ensures;
    broadcast use vstd::multiset::group_multiset_axioms;
    let ghost f0 = from@;
    let ghost t0 = to@;
    let e = from.remove(0);
    to.push(e);
    proof {
        assert(from@ =~= f0.drop_first());
        assert(entry_values(from@) =~= entry_values(f0).remove(0));
        assert(entry_values(to@) =~= entry_values(t0).push(e.values@));
        assert(entry_values(f0).contains(entry_values(f0)[0]));
    }
}

/// Entry `e1`, of the input row at position `p1`, may come before entry
/// `e2`, of the row at `p2`: its key is no greater, and where the keys are
/// equal its row comes first.
pub open spec fn ranked_le(e1: SortEntry, p1: int, e2: SortEntry, p2: int, obs: Seq<PlannedOrderBy>) -> bool {
    &&& key_le(e1.key@, e2.key@, obs)
    &&& key_order(e1.key@, e2.key@, obs, 0) == Some(Ordering::Equal) ==> p1 < p2
}

/// The entries, of the rows at positions `ps`, are in key order, and in row
/// order where keys are equal.
pub open spec fn ranked(es: Seq<SortEntry>, ps: Seq<int>, obs: Seq<PlannedOrderBy>) -> bool {
    &&& ps.len() == es.len()
    &&& forall|p: int, q: int| 0 <= p < q < es.len() ==> #[trigger] ranked_le(es[p], ps[p], es[q], ps[q], obs)
}

/// Every entry of `xs` may come before every entry of `ys`.
pub open spec fn ranked_across(xs: Seq<SortEntry>, px: Seq<int>, ys: Seq<SortEntry>, py: Seq<int>, obs: Seq<PlannedOrderBy>) -> bool {
    forall|p: int, q: int| 0 <= p < xs.len() && 0 <= q < ys.len() ==> #[trigger] ranked_le(xs[p], px[p], ys[q], py[q], obs)
}

/// Every position of `px` is before every position of `py`.
pub open spec fn all_before(px: Seq<int>, py: Seq<int>) -> bool {
    forall|p: int, q: int| 0 <= p < px.len() && 0 <= q < py.len() ==> #[trigger] px[p] < #[trigger] py[q]
}

/// Each entry holds the values of the row at its position.
pub open spec fn entries_at(es: Seq<SortEntry>, ps: Seq<int>, vals: Seq<Seq<Value>>) -> bool {
    &&& ps.len() == es.len()
    &&& forall|k: int| 0 <= k < es.len() ==> 0 <= #[trigger] ps[k] < vals.len() && es[k].values@ == vals[ps[k]]
}

proof fn lemma_move_pos(a: Seq<int>, b: Seq<int>)
    requires
        b.len() > 0,
    ensures
        a.push(b[0]).to_multiset() =~= a.to_multiset().insert(b[0]),
        b.drop_first().to_multiset() =~= b.to_multiset().remove(b[0]),
        b.to_multiset().count(b[0]) > 0,
{
    broadcast use vstd::multiset::group_multiset_axioms;
    vstd::seq_lib::to_multiset_build(a, b[0]);
    vstd::seq_lib::to_multiset_remove(b, 0);
    assert(b.remove(0) =~= b.drop_first());
    vstd::seq_lib::to_multiset_contains(b, b[0]);
    assert(b.contains(b[0])) by {
        assert(b[0] == b[0]);
    }
}

/// Merges two runs, in key order and, where keys are equal, in row order,
/// into one; every row of `a` comes before every row of `b`.
fn merge_sorted_runs(
    a: MergeSortRun,
    b: MergeSortRun,
    comparator: &TupleComparator,
    pool: Ghost<Set<Seq<Value>>>,
    vals: Ghost<Seq<Seq<Value>>>,
    pa: Ghost<Seq<int>>,
    pb: Ghost<Seq<int>>,
) -> (res: (MergeSortRun, Ghost<Seq<int>>))
    requires
        pool_comparable(pool@, comparator.order_bys@),
        entries_ok(a.entries@, comparator.order_bys@, pool@),
        entries_ok(b.entries@, comparator.order_bys@, pool@),
        ranked(a.entries@, pa@, comparator.order_bys@),
        ranked(b.entries@, pb@, comparator.order_bys@),
        entries_at(a.entries@, pa@, vals@),
        entries_at(b.entries@, pb@, vals@),
        all_before(pa@, pb@),
    ensures
        entries_ok(res.0.entries@, comparator.order_bys@, pool@),
        ranked(res.0.entries@, res.1@, comparator.order_bys@),
        entries_at(res.0.entries@, res.1@, vals@),
        entry_values(res.0.entries@).to_multiset()
            =~= entry_values(a.entries@).to_multiset().add(entry_values(b.entries@).to_multiset()),
        res.1@.to_multiset() =~= pa@.to_multiset().add(pb@.to_multiset()),
{
    broadcast use vstd::multiset::group_multiset_axioms;
    let ghost obs = comparator.order_bys@;
    let ghost total = entry_values(a.entries@).to_multiset().add(entry_values(b.entries@).to_multiset());
    let ghost total_pos = pa@.to_multiset().add(pb@.to_multiset());
    let mut xs = a.entries;
    let mut ys = b.entries;
    let mut out: Vec<SortEntry> = Vec::new();
    let ghost mut px = pa@;
    let ghost mut py = pb@;
    let ghost mut po: Seq<int> = Seq::empty();
    proof {
        lemma_no_values(out@);
        assert(po.to_multiset() =~= vstd::multiset::Multiset::<int>::empty()) by {
            vstd::seq_lib::to_multiset_len(po);
            vstd::multiset::lemma_multiset_empty_len(po.to_multiset());
        }
    }
    while xs.len() > 0 || ys.len() > 0
        invariant
            obs == comparator.order_bys@,
            pool_comparable(pool@, obs),
            entries_ok(xs@, obs, pool@),
            entries_ok(ys@, obs, pool@),
            entries_ok(out@, obs, pool@),
            ranked(xs@, px, obs),
            ranked(ys@, py, obs),
            ranked(out@, po, obs),
            ranked_across(out@, po, xs@, px, obs),
            ranked_across(out@, po, ys@, py, obs),
            all_before(px, py),
            entries_at(xs@, px, vals@),
            entries_at(ys@, py, vals@),
            entries_at(out@, po, vals@),
            entry_values(out@).to_multiset().add(entry_values(xs@).to_multiset()).add(entry_values(ys@).to_multiset()) == total,
            po.to_multiset().add(px.to_multiset()).add(py.to_multiset()) == total_pos,
        decreases xs@.len() + ys@.len(),
    {
        let from_xs = if xs.len() == 0 {
            false
        } else if ys.len() == 0 {
            true
        } else {
            assert(entry_ok(xs@[0], obs, pool@));
            assert(entry_ok(ys@[0], obs, pool@));
            assert(key_order(xs@[0].key@, ys@[0].key@, obs, 0) is Some);
            let c = comparator.compare_keys(&xs[0].key, &ys[0].key);
            proof {
                lemma_key_order_reversed(xs@[0].key@, ys@[0].key@, obs, 0);
            }
            match c {
                Ordering::Greater => false,
                _ => true,
            }
        };
        let ghost o0 = out@;
        let ghost x0 = xs@;
        let ghost y0 = ys@;
        let ghost po0 = po;
        let ghost px0 = px;
        let ghost py0 = py;
        if from_xs {
            move_front(&mut xs, &mut out);
            proof {
                po = po0.push(px0[0]);
                px = px0.drop_first();
                lemma_move_pos(po0, px0);
                assert(entry_values(out@).to_multiset().add(entry_values(xs@).to_multiset()).add(entry_values(ys@).to_multiset()) =~= total);
                assert(po.to_multiset().add(px.to_multiset()).add(py.to_multiset()) =~= total_pos);
                let x = x0[0];
                // the entry taken may come before every entry left in `ys`
                assert forall|q: int| 0 <= q < y0.len() implies #[trigger] ranked_le(x, px0[0], y0[q], py0[q], obs) by {
                    assert(entry_ok(x, obs, pool@));
                    assert(entry_ok(y0[0], obs, pool@));
                    assert(entry_ok(y0[q], obs, pool@));
                    assert(px0[0] < py0[q]);
                    if q > 0 {
                        assert(ranked_le(y0[0], py0[0], y0[q], py0[q], obs));
                        assert(key_order(x.key@, y0[q].key@, obs, 0) is Some);
                        lemma_key_order_transitive(x.key@, y0[0].key@, y0[q].key@, obs, 0);
                    }
                }
                assert(ranked(out@, po, obs)) by {
                    assert forall|p: int, q: int| 0 <= p < q < out@.len() implies #[trigger] ranked_le(out@[p], po[p], out@[q], po[q], obs) by {
                        if q < o0.len() {
                            assert(ranked_le(o0[p], po0[p], o0[q], po0[q], obs));
                        } else {
                            assert(ranked_le(o0[p], po0[p], x0[0], px0[0], obs));
                        }
                    }
                }
                assert(ranked(xs@, px, obs)) by {
                    assert forall|p: int, q: int| 0 <= p < q < xs@.len() implies #[trigger] ranked_le(xs@[p], px[p], xs@[q], px[q], obs) by {
                        assert(ranked_le(x0[p + 1], px0[p + 1], x0[q + 1], px0[q + 1], obs));
                    }
                }
                assert(ranked_across(out@, po, xs@, px, obs)) by {
                    assert forall|p: int, q: int| 0 <= p < out@.len() && 0 <= q < xs@.len() implies #[trigger] ranked_le(out@[p], po[p], xs@[q], px[q], obs) by {
                        if p < o0.len() {
                            assert(ranked_le(o0[p], po0[p], x0[q + 1], px0[q + 1], obs));
                        } else {
                            assert(ranked_le(x0[0], px0[0], x0[q + 1], px0[q + 1], obs));
                        }
                    }
                }
                assert(ranked_across(out@, po, ys@, py, obs)) by {
                    assert forall|p: int, q: int| 0 <= p < out@.len() && 0 <= q < ys@.len() implies #[trigger] ranked_le(out@[p], po[p], ys@[q], py[q], obs) by {
                        if p < o0.len() {
                            assert(ranked_le(o0[p], po0[p], y0[q], py0[q], obs));
                        } else {
                            assert(ranked_le(x, px0[0], y0[q], py0[q], obs));
                        }
                    }
                }
                assert(all_before(px, py)) by {
                    assert forall|p: int, q: int| 0 <= p < px.len() && 0 <= q < py.len() implies #[trigger] px[p] < #[trigger] py[q] by {
                        assert(px0[p + 1] < py0[q]);
                    }
                }
                assert(entries_ok(xs@, obs, pool@)) by {
                    assert forall|k: int| 0 <= k < xs@.len() implies entry_ok(#[trigger] xs@[k], obs, pool@) by {
                        assert(xs@[k] == x0[k + 1]);
                    }
                }
                assert(entries_at(xs@, px, vals@)) by {
                    assert forall|k: int| 0 <= k < xs@.len() implies 0 <= #[trigger] px[k] < vals@.len() && xs@[k].values@ == vals@[px[k]] by {
                        assert(xs@[k] == x0[k + 1] && px[k] == px0[k + 1]);
                    }
                }
                assert(entries_at(out@, po, vals@)) by {
                    assert forall|k: int| 0 <= k < out@.len() implies 0 <= #[trigger] po[k] < vals@.len() && out@[k].values@ == vals@[po[k]] by {
                        if k < o0.len() {
                            assert(po[k] == po0[k]);
                        }
                    }
                }
            }
        } else {
            move_front(&mut ys, &mut out);
            proof {
                po = po0.push(py0[0]);
                py = py0.drop_first();
                lemma_move_pos(po0, py0);
                assert(entry_values(out@).to_multiset().add(entry_values(xs@).to_multiset()).add(entry_values(ys@).to_multiset()) =~= total);
                assert(po.to_multiset().add(px.to_multiset()).add(py.to_multiset()) =~= total_pos);
                let y = y0[0];
                // the entry taken comes strictly before every entry left in `xs`
                assert forall|q: int| 0 <= q < x0.len() implies #[trigger] ranked_le(y, py0[0], x0[q], px0[q], obs) by {
                    assert(x0.len() > 0);
                    assert(entry_ok(y, obs, pool@));
                    assert(entry_ok(x0[0], obs, pool@));
                    assert(entry_ok(x0[q], obs, pool@));
                    assert(key_order(y.key@, x0[0].key@, obs, 0) == Some(Ordering::Less));
                    if q > 0 {
                        assert(ranked_le(x0[0], px0[0], x0[q], px0[q], obs));
                        assert(key_order(y.key@, x0[q].key@, obs, 0) is Some);
                        lemma_key_order_transitive(y.key@, x0[0].key@, x0[q].key@, obs, 0);
                    }
                }
                assert(ranked(out@, po, obs)) by {
                    assert forall|p: int, q: int| 0 <= p < q < out@.len() implies #[trigger] ranked_le(out@[p], po[p], out@[q], po[q], obs) by {
                        if q < o0.len() {
                            assert(ranked_le(o0[p], po0[p], o0[q], po0[q], obs));
                        } else {
                            assert(ranked_le(o0[p], po0[p], y0[0], py0[0], obs));
                        }
                    }
                }
                assert(ranked(ys@, py, obs)) by {
                    assert forall|p: int, q: int| 0 <= p < q < ys@.len() implies #[trigger] ranked_le(ys@[p], py[p], ys@[q], py[q], obs) by {
                        assert(ranked_le(y0[p + 1], py0[p + 1], y0[q + 1], py0[q + 1], obs));
                    }
                }
                assert(ranked_across(out@, po, ys@, py, obs)) by {
                    assert forall|p: int, q: int| 0 <= p < out@.len() && 0 <= q < ys@.len() implies #[trigger] ranked_le(out@[p], po[p], ys@[q], py[q], obs) by {
                        if p < o0.len() {
                            assert(ranked_le(o0[p], po0[p], y0[q + 1], py0[q + 1], obs));
                        } else {
                            assert(ranked_le(y0[0], py0[0], y0[q + 1], py0[q + 1], obs));
                        }
                    }
                }
                assert(ranked_across(out@, po, xs@, px, obs)) by {
                    assert forall|p: int, q: int| 0 <= p < out@.len() && 0 <= q < xs@.len() implies #[trigger] ranked_le(out@[p], po[p], xs@[q], px[q], obs) by {
                        if p < o0.len() {
                            assert(ranked_le(o0[p], po0[p], x0[q], px0[q], obs));
                        } else {
                            assert(ranked_le(y, py0[0], x0[q], px0[q], obs));
                        }
                    }
                }
                assert(all_before(px, py)) by {
                    assert forall|p: int, q: int| 0 <= p < px.len() && 0 <= q < py.len() implies #[trigger] px[p] < #[trigger] py[q] by {
                        assert(px0[p] < py0[q + 1]);
                    }
                }
                assert(entries_ok(ys@, obs, pool@)) by {
                    assert forall|k: int| 0 <= k < ys@.len() implies entry_ok(#[trigger] ys@[k], obs, pool@) by {
                        assert(ys@[k] == y0[k + 1]);
                    }
                }
                assert(entries_at(ys@, py, vals@)) by {
                    assert forall|k: int| 0 <= k < ys@.len() implies 0 <= #[trigger] py[k] < vals@.len() && ys@[k].values@ == vals@[py[k]] by {
                        assert(ys@[k] == y0[k + 1] && py[k] == py0[k + 1]);
                    }
                }
                assert(entries_at(out@, po, vals@)) by {
                    assert forall|k: int| 0 <= k < out@.len() implies 0 <= #[trigger] po[k] < vals@.len() && out@[k].values@ == vals@[po[k]] by {
                        if k < o0.len() {
                            assert(po[k] == po0[k]);
                        }
                    }
                }
            }
        }
    }
    proof {
        lemma_no_values(xs@);
        lemma_no_values(ys@);
        vstd::seq_lib::to_multiset_len(px);
        vstd::seq_lib::to_multiset_len(py);
        vstd::multiset::lemma_multiset_empty_len(px.to_multiset());
        vstd::multiset::lemma_multiset_empty_len(py.to_multiset());
    }
    (MergeSortRun::new(out), Ghost(po))
}

/// Every run holds entries keyed from `pool`, of the rows at its positions
/// `pss[k]`, in key order and row order.
pub open spec fn runs_ok(runs: Seq<MergeSortRun>, pss: Seq<Seq<int>>, obs: Seq<PlannedOrderBy>, pool: Set<Seq<Value>>, vals: Seq<Seq<Value>>) -> bool {
    &&& pss.len() == runs.len()
    &&& forall|k: int| 0 <= k < runs.len() ==> {
        &&& entries_ok((#[trigger] runs[k]).entries@, obs, pool)
        &&& ranked(runs[k].entries@, pss[k], obs)
        &&& entries_at(runs[k].entries@, pss[k], vals)
    }
}

/// The rows of each run come before those of every later run.
pub open spec fn runs_ordered(pss: Seq<Seq<int>>) -> bool {
    forall|i: int, j: int| 0 <= i < j < pss.len() ==> all_before(#[trigger] pss[i], #[trigger] pss[j])
}

/// The rows of every run of `pa` come before those of every run of `pb`.
pub open spec fn runs_before(pa: Seq<Seq<int>>, pb: Seq<Seq<int>>) -> bool {
    forall|i: int, j: int| 0 <= i < pa.len() && 0 <= j < pb.len() ==> all_before(#[trigger] pa[i], #[trigger] pb[j])
}

/// The positions of all runs, as a multiset.
pub open spec fn pos_bag(pss: Seq<Seq<int>>) -> vstd::multiset::Multiset<int>
    decreases pss.len(),
{
    if pss.len() == 0 {
        vstd::multiset::Multiset::empty()
    } else {
        pss[0].to_multiset().add(pos_bag(pss.drop_first()))
    }
}

proof fn lemma_pos_bag_push(pss: Seq<Seq<int>>, ps: Seq<int>)
    ensures
        pos_bag(pss.push(ps)) =~= pos_bag(pss).add(ps.to_multiset()),
    decreases pss.len(),
{
    broadcast use vstd::multiset::group_multiset_axioms;
    if pss.len() == 0 {
        assert(pss.push(ps).drop_first() =~= Seq::<Seq<int>>::empty());
        assert(pss.push(ps)[0] == ps);
        assert(pos_bag(pss.push(ps)) =~= ps.to_multiset().add(pos_bag(Seq::<Seq<int>>::empty())));
    } else {
        lemma_pos_bag_push(pss.drop_first(), ps);
        assert(pss.push(ps).drop_first() =~= pss.drop_first().push(ps));
        assert(pss.push(ps)[0] == pss[0]);
        assert(pos_bag(pss.push(ps)) =~= pss[0].to_multiset().add(pos_bag(pss.drop_first().push(ps))));
    }
}

/// A position of a merged run is a position of one of the runs merged.
proof fn lemma_merged_position(p1: Seq<int>, p2: Seq<int>, pm: Seq<int>, q: int)
    requires
        pm.to_multiset() =~= p1.to_multiset().add(p2.to_multiset()),
        0 <= q < pm.len(),
    ensures
        (exists|i: int| 0 <= i < p1.len() && p1[i] == pm[q]) || (exists|i: int| 0 <= i < p2.len() && p2[i] == pm[q]),
{
    broadcast use vstd::multiset::group_multiset_axioms;
    vstd::seq_lib::to_multiset_contains(pm, pm[q]);
    vstd::seq_lib::to_multiset_contains(p1, pm[q]);
    vstd::seq_lib::to_multiset_contains(p2, pm[q]);
    assert(pm.contains(pm[q]));
}

proof fn lemma_merged_before(a: Seq<int>, p1: Seq<int>, p2: Seq<int>, pm: Seq<int>)
    requires
        pm.to_multiset() =~= p1.to_multiset().add(p2.to_multiset()),
        all_before(a, p1),
        all_before(a, p2),
    ensures
        all_before(a, pm),
{
    assert forall|p: int, q: int| 0 <= p < a.len() && 0 <= q < pm.len() implies #[trigger] a[p] < #[trigger] pm[q] by {
        lemma_merged_position(p1, p2, pm, q);
        if exists|i: int| 0 <= i < p1.len() && p1[i] == pm[q] {
            let i = choose|i: int| 0 <= i < p1.len() && p1[i] == pm[q];
            assert(a[p] < p1[i]);
        } else {
            let i = choose|i: int| 0 <= i < p2.len() && p2[i] == pm[q];
            assert(a[p] < p2[i]);
        }
    }
}

proof fn lemma_merged_after(p1: Seq<int>, p2: Seq<int>, pm: Seq<int>, b: Seq<int>)
    requires
        pm.to_multiset() =~= p1.to_multiset().add(p2.to_multiset()),
        all_before(p1, b),
        all_before(p2, b),
    ensures
        all_before(pm, b),
{
    assert forall|p: int, q: int| 0 <= p < pm.len() && 0 <= q < b.len() implies #[trigger] pm[p] < #[trigger] b[q] by {
        lemma_merged_position(p1, p2, pm, p);
        if exists|i: int| 0 <= i < p1.len() && p1[i] == pm[p] {
            let i = choose|i: int| 0 <= i < p1.len() && p1[i] == pm[p];
            assert(p1[i] < b[q]);
        } else {
            let i = choose|i: int| 0 <= i < p2.len() && p2[i] == pm[p];
            assert(p2[i] < b[q]);
        }
    }
}

/// Merges runs pairwise, pass after pass, until at most one is left: the
/// run of all their entries, in key order and, where keys are equal, in
/// row order.
fn merge_runs(
    runs: Vec<MergeSortRun>,
    comparator: &TupleComparator,
    pool: Ghost<Set<Seq<Value>>>,
    vals: Ghost<Seq<Seq<Value>>>,
    pss: Ghost<Seq<Seq<int>>>,
) -> (res: (MergeSortRun, Ghost<Seq<int>>))
    requires
        pool_comparable(pool@, comparator.order_bys@),
        runs_ok(runs@, pss@, comparator.order_bys@, pool@, vals@),
        runs_ordered(pss@),
    ensures
        entries_ok(res.0.entries@, comparator.order_bys@, pool@),
        ranked(res.0.entries@, res.1@, comparator.order_bys@),
        entries_at(res.0.entries@, res.1@, vals@),
        entry_values(res.0.entries@).to_multiset() =~= runs_values(runs@),
        res.1@.to_multiset() =~= pos_bag(pss@),
{
    broadcast use vstd::multiset::group_multiset_axioms;
    let ghost obs = comparator.order_bys@;
    let ghost total = runs_values(runs@);
    let ghost total_pos = pos_bag(pss@);
    let mut current = runs;
    let ghost mut cps = pss@;
    while current.len() > 1
        invariant
            obs == comparator.order_bys@,
            pool_comparable(pool@, obs),
            runs_ok(current@, cps, obs, pool@, vals@),
            runs_ordered(cps),
            runs_values(current@) == total,
            pos_bag(cps) == total_pos,
        decreases current@.len(),
    {
        let ghost n0 = current@.len();
        let mut next: Vec<MergeSortRun> = Vec::new();
        let ghost mut nps: Seq<Seq<int>> = Seq::empty();
        assert(runs_values(next@) =~= vstd::multiset::Multiset::<Seq<Value>>::empty());
        assert(pos_bag(nps) =~= vstd::multiset::Multiset::<int>::empty());
        while current.len() > 0
            invariant
                obs == comparator.order_bys@,
                pool_comparable(pool@, obs),
                runs_ok(current@, cps, obs, pool@, vals@),
                runs_ok(next@, nps, obs, pool@, vals@),
                runs_ordered(cps),
                runs_ordered(nps),
                runs_before(nps, cps),
                runs_values(next@).add(runs_values(current@)) == total,
                pos_bag(nps).add(pos_bag(cps)) == total_pos,
                n0 >= 2,
                current@.len() > 0 ==> 2 * next@.len() == n0 - current@.len(),
                2 * next@.len() <= n0 + 1,
            decreases current@.len(),
        {
            let ghost c0 = current@;
            let ghost cp0 = cps;
            let ghost nx0 = next@;
            let ghost np0 = nps;
            assert(runs_ok(c0, cp0, obs, pool@, vals@));
            assert(entries_ok(c0[0].entries@, obs, pool@) && ranked(c0[0].entries@, cp0[0], obs) && entries_at(c0[0].entries@, cp0[0], vals@));
            let r1 = current.remove(0);
            assert(current@ =~= c0.drop_first());
            proof {
                cps = cp0.drop_first();
                assert(runs_values(c0) =~= entry_values(r1.entries@).to_multiset().add(runs_values(current@)));
                assert(pos_bag(cp0) =~= cp0[0].to_multiset().add(pos_bag(cps)));
                assert forall|k: int| 0 <= k < current@.len() implies {
                    &&& entries_ok((#[trigger] current@[k]).entries@, obs, pool@)
                    &&& ranked(current@[k].entries@, cps[k], obs)
                    &&& entries_at(current@[k].entries@, cps[k], vals@)
                } by {
                    assert(current@[k] == c0[k + 1] && cps[k] == cp0[k + 1]);
                }
                assert forall|i: int, j: int| 0 <= i < j < cps.len() implies all_before(#[trigger] cps[i], #[trigger] cps[j]) by {
                    assert(all_before(cp0[i + 1], cp0[j + 1]));
                }
            }
            if current.len() == 0 {
                next.push(r1);
                proof {
                    nps = np0.push(cp0[0]);
                    lemma_runs_values_push(nx0, r1);
                    lemma_pos_bag_push(np0, cp0[0]);
                    assert(runs_values(current@) =~= vstd::multiset::Multiset::<Seq<Value>>::empty());
                    assert(pos_bag(cps) =~= vstd::multiset::Multiset::<int>::empty());
                    assert(runs_values(next@).add(runs_values(current@)) =~= total);
                    assert(pos_bag(nps).add(pos_bag(cps)) =~= total_pos);
                    assert forall|k: int| 0 <= k < next@.len() implies {
                        &&& entries_ok((#[trigger] next@[k]).entries@, obs, pool@)
                        &&& ranked(next@[k].entries@, nps[k], obs)
                        &&& entries_at(next@[k].entries@, nps[k], vals@)
                    } by {
                        if k < nx0.len() {
                            assert(next@[k] == nx0[k] && nps[k] == np0[k]);
                        }
                    }
                    assert forall|i: int, j: int| 0 <= i < j < nps.len() implies all_before(#[trigger] nps[i], #[trigger] nps[j]) by {
                        if j < np0.len() {
                            assert(all_before(np0[i], np0[j]));
                        } else {
                            assert(all_before(np0[i], cp0[0]));
                        }
                    }
                }
            } else {
                let ghost c1 = current@;
                let ghost cp1 = cps;
                assert(entries_ok(c1[0].entries@, obs, pool@) && ranked(c1[0].entries@, cp1[0], obs) && entries_at(c1[0].entries@, cp1[0], vals@));
                let r2 = current.remove(0);
                assert(current@ =~= c1.drop_first());
                proof {
                    cps = cp1.drop_first();
                    assert(runs_values(c1) =~= entry_values(r2.entries@).to_multiset().add(runs_values(current@)));
                    assert(pos_bag(cp1) =~= cp1[0].to_multiset().add(pos_bag(cps)));
                    assert(all_before(cp0[0], cp0[1]));
                    assert(cp1[0] == cp0[1]);
                    assert forall|k: int| 0 <= k < current@.len() implies {
                        &&& entries_ok((#[trigger] current@[k]).entries@, obs, pool@)
                        &&& ranked(current@[k].entries@, cps[k], obs)
                        &&& entries_at(current@[k].entries@, cps[k], vals@)
                    } by {
                        assert(current@[k] == c1[k + 1] && cps[k] == cp1[k + 1]);
                    }
                    assert forall|i: int, j: int| 0 <= i < j < cps.len() implies all_before(#[trigger] cps[i], #[trigger] cps[j]) by {
                        assert(all_before(cp1[i + 1], cp1[j + 1]));
                    }
                }
                let (m, pm) = merge_sorted_runs(r1, r2, comparator, pool, vals, Ghost(cp0[0]), Ghost(cp0[1]));
                next.push(m);
                proof {
                    nps = np0.push(pm@);
                    lemma_runs_values_push(nx0, m);
                    lemma_pos_bag_push(np0, pm@);
                    assert(runs_values(next@).add(runs_values(current@)) =~= total);
                    assert(pos_bag(nps).add(pos_bag(cps)) =~= total_pos);
                    assert forall|k: int| 0 <= k < next@.len() implies {
                        &&& entries_ok((#[trigger] next@[k]).entries@, obs, pool@)
                        &&& ranked(next@[k].entries@, nps[k], obs)
                        &&& entries_at(next@[k].entries@, nps[k], vals@)
                    } by {
                        if k < nx0.len() {
                            assert(next@[k] == nx0[k] && nps[k] == np0[k]);
                        }
                    }
                    assert forall|i: int, j: int| 0 <= i < j < nps.len() implies all_before(#[trigger] nps[i], #[trigger] nps[j]) by {
                        if j < np0.len() {
                            assert(all_before(np0[i], np0[j]));
                        } else {
                            assert(all_before(np0[i], cp0[0]));
                            assert(all_before(np0[i], cp0[1]));
                            lemma_merged_before(np0[i], cp0[0], cp0[1], pm@);
                        }
                    }
                    assert forall|i: int, j: int| 0 <= i < nps.len() && 0 <= j < cps.len() implies all_before(#[trigger] nps[i], #[trigger] cps[j]) by {
                        assert(cps[j] == cp0[j + 2]);
                        if i < np0.len() {
                            assert(nps[i] == np0[i]);
                            assert(all_before(np0[i], cp0[j + 2]));
                        } else {
                            assert(all_before(cp0[0], cp0[j + 2]));
                            assert(all_before(cp0[1], cp0[j + 2]));
                            lemma_merged_after(cp0[0], cp0[1], pm@, cp0[j + 2]);
                        }
                    }
                }
            }
            proof {
                assert forall|i: int, j: int| 0 <= i < nps.len() && 0 <= j < cps.len() implies all_before(#[trigger] nps[i], #[trigger] cps[j]) by {
                    if i < np0.len() {
                        assert(nps[i] == np0[i]);
                        if current@.len() > 0 {
                            assert(all_before(np0[i], cp0[j + 2]));
                            assert(cps[j] == cp0[j + 2]);
                        }
                    }
                }
            }
        }
        assert(runs_values(current@) =~= vstd::multiset::Multiset::<Seq<Value>>::empty());
        assert(pos_bag(cps) =~= vstd::multiset::Multiset::<int>::empty());
        current = next;
        proof {
            cps = nps;
        }
    }
    if current.len() == 0 {
        let none: Vec<SortEntry> = Vec::new();
        proof {
            lemma_no_values(none@);
            assert(runs_values(current@) =~= vstd::multiset::Multiset::<Seq<Value>>::empty());
            assert(pos_bag(cps) =~= vstd::multiset::Multiset::<int>::empty());
            vstd::seq_lib::to_multiset_len(Seq::<int>::empty());
            vstd::multiset::lemma_multiset_empty_len(Seq::<int>::empty().to_multiset());
        }
        (MergeSortRun::new(none), Ghost(Seq::empty()))
    } else {
        let ghost c0 = current@;
        let ghost cp0 = cps;
        proof {
            assert(entries_ok(c0[0].entries@, obs, pool@) && ranked(c0[0].entries@, cp0[0], obs) && entries_at(c0[0].entries@, cp0[0], vals@));
            assert(c0.drop_first() =~= Seq::<MergeSortRun>::empty());
            assert(cp0.drop_first() =~= Seq::<Seq<int>>::empty());
            assert(runs_values(c0) =~= entry_values(c0[0].entries@).to_multiset().add(runs_values(c0.drop_first())));
            assert(pos_bag(cp0) =~= cp0[0].to_multiset().add(pos_bag(cp0.drop_first())));
        }
        (current.remove(0), Ghost(cp0[0]))
    }
}

/// A copy of a list of ORDER BY clauses.
fn clone_order_bys(v: &Vec<PlannedOrderBy>) -> (res: Vec<PlannedOrderBy>)
    ensures
        res@ == v@,
{
    let mut res: Vec<PlannedOrderBy> = Vec::new();
    let mut i: usize = 0;
    while i < v.len()
        invariant
            i <= v@.len(),
            res@ == v@.subrange(0, index_of(i)),
        decreases v@.len() - i,
    {
        let o = &v[i];
        res.push(PlannedOrderBy { expression: clone_expr(&o.expression), order_by_type: o.order_by_type, null_type: o.null_type });
        i = i + 1;
        assert(res@ =~= v@.subrange(0, index_of(i)));
    }
    res
}

/// Whether the keys of two rows, where both have one, can be compared.
pub open spec fn keys_comparable(obs: Seq<PlannedOrderBy>, a: Seq<Value>, b: Seq<Value>) -> bool {
    match (row_key(obs, a), row_key(obs, b)) {
        (Ok(ka), Ok(kb)) => key_order(ka, kb, obs, 0) is Some,
        _ => true,
    }
}

/// The error in computing the key of the first of the first `n` rows whose
/// key fails, if one does.
pub open spec fn first_key_error(obs: Seq<PlannedOrderBy>, rows: Seq<RowView>, n: int) -> Option<ExecutionError>
    decreases n,
{
    if n <= 0 {
        None
    } else {
        match first_key_error(obs, rows, n - 1) {
            Some(e) => Some(e),
            None => match row_key(obs, rows[n - 1].values) {
                Err(e) => Some(e),
                Ok(_) => None,
            },
        }
    }
}

proof fn lemma_key_error_sticks(obs: Seq<PlannedOrderBy>, rows: Seq<RowView>, k: int, n: int)
    requires
        0 <= k <= n,
        first_key_error(obs, rows, k) is Some,
    ensures
        first_key_error(obs, rows, n) == first_key_error(obs, rows, k),
    decreases n - k,
{
    if k < n {
        lemma_key_error_sticks(obs, rows, k, n - 1);
    }
}

/// The values of rows, in order.
pub open spec fn input_values(rows: Seq<RowView>) -> Seq<Seq<Value>> {
    rows.map_values(|r: RowView| r.values)
}

/// The keys that rows have.
pub open spec fn key_pool(obs: Seq<PlannedOrderBy>, rows: Seq<RowView>) -> Set<Seq<Value>> {
    Set::new(|k: Seq<Value>| exists|i: int| 0 <= i < rows.len() && row_key(obs, rows[i].values) == Ok::<Seq<Value>, ExecutionError>(k))
}

proof fn lemma_key_pool_comparable(obs: Seq<PlannedOrderBy>, rows: Seq<RowView>)
    requires
        forall|i: int, j: int| 0 <= i < rows.len() && 0 <= j < rows.len() ==> keys_comparable(obs, #[trigger] rows[i].values, #[trigger] rows[j].values),
    ensures
        pool_comparable(key_pool(obs, rows), obs),
{
    let pool = key_pool(obs, rows);
    assert forall|a: Seq<Value>, b: Seq<Value>| pool.contains(a) && pool.contains(b) implies #[trigger] key_order(a, b, obs, 0) is Some by {
        let i = choose|i: int| 0 <= i < rows.len() && row_key(obs, rows[i].values) == Ok::<Seq<Value>, ExecutionError>(a);
        let j = choose|j: int| 0 <= j < rows.len() && row_key(obs, rows[j].values) == Ok::<Seq<Value>, ExecutionError>(b);
        assert(keys_comparable(obs, rows[i].values, rows[j].values));
    }
}

/// Where rows `p` and `q` of `out` have equal keys, the input row of `p`,
/// `perm[p]`, comes before that of `q`.
pub open spec fn stable_at(obs: Seq<PlannedOrderBy>, out: Seq<Seq<Value>>, perm: Seq<int>, p: int, q: int) -> bool {
    match (row_key(obs, out[p]), row_key(obs, out[q])) {
        (Ok(a), Ok(b)) => key_order(a, b, obs, 0) == Some(Ordering::Equal) ==> perm[p] < perm[q],
        _ => true,
    }
}

/// `out` reorders `input`: row `p` of `out` is row `perm[p]` of `input`,
/// and each input row is used once.
pub open spec fn reorders(input: Seq<Seq<Value>>, out: Seq<Seq<Value>>, perm: Seq<int>) -> bool {
    &&& perm.len() == out.len()
    &&& out.len() == input.len()
    &&& forall|p: int| 0 <= p < out.len() ==> 0 <= #[trigger] perm[p] < input.len() && out[p] == input[perm[p]]
    &&& forall|p: int, q: int| 0 <= p < q < out.len() ==> #[trigger] perm[p] != #[trigger] perm[q]
}

/// `out` is `input` sorted by key, rows of equal keys kept in input order.
pub open spec fn stably_sorted(obs: Seq<PlannedOrderBy>, input: Seq<Seq<Value>>, out: Seq<Seq<Value>>) -> bool {
    &&& values_sorted(obs, out)
    &&& exists|perm: Seq<int>| {
        &&& #[trigger] reorders(input, out, perm)
        &&& forall|p: int, q: int| 0 <= p < q < out.len() ==> #[trigger] stable_at(obs, out, perm, p, q)
    }
}

proof fn lemma_stably_sorted(es: Seq<SortEntry>, po: Seq<int>, obs: Seq<PlannedOrderBy>, pool: Set<Seq<Value>>, vals: Seq<Seq<Value>>)
    requires
        entries_ok(es, obs, pool),
        ranked(es, po, obs),
        entries_at(es, po, vals),
        po.to_multiset() =~= Seq::new(vals.len(), |i: int| i).to_multiset(),
    ensures
        stably_sorted(obs, vals, entry_values(es)),
{
    let out = entry_values(es);
    let ids = Seq::new(vals.len(), |i: int| i);
    vstd::seq_lib::to_multiset_len(po);
    vstd::seq_lib::to_multiset_len(ids);
    assert(ids.no_duplicates());
    ids.lemma_multiset_has_no_duplicates();
    po.lemma_multiset_has_no_duplicates_conv();
    assert forall|i: int, j: int| 0 <= i < j < out.len() implies #[trigger] value_le(obs, out, i, j) by {
        assert(entry_ok(es[i], obs, pool));
        assert(entry_ok(es[j], obs, pool));
        assert(ranked_le(es[i], po[i], es[j], po[j], obs));
    }
    assert forall|p: int, q: int| 0 <= p < q < out.len() implies #[trigger] stable_at(obs, out, po, p, q) by {
        assert(entry_ok(es[p], obs, pool));
        assert(entry_ok(es[q], obs, pool));
        assert(ranked_le(es[p], po[p], es[q], po[q], obs));
    }
    assert forall|p: int| 0 <= p < out.len() implies 0 <= #[trigger] po[p] < vals.len() && out[p] == vals[po[p]] by {
        assert(out[p] == es[p].values@);
    }
    assert forall|p: int, q: int| 0 <= p < q < out.len() implies #[trigger] po[p] != #[trigger] po[q] by {
    }
    assert(reorders(vals, out, po));
}

/// Reading a sort: once `init` has left `sorted`, its input's row values
/// sorted by key with rows of equal keys in input order, the batches that
/// `next(n)`, `n >= 1`, hands out until the first empty one give those rows,
/// in that order, `n` to a batch but the last, and nothing is left.
pub proof fn lemma_sort_read_in_batches(
    obs: Seq<PlannedOrderBy>,
    input: Seq<Seq<Value>>,
    sorted: Seq<Seq<Value>>,
    states: Seq<Seq<RowView>>,
    batches: Seq<Seq<RowView>>,
    n: nat,
)
    requires
        stably_sorted(obs, input, sorted),
        n > 0,
        batches.len() > 0,
        states.len() == batches.len() + 1,
        states[0] == plain_rows(sorted),
        forall|i: int| 0 <= i < batches.len() ==> #[trigger] batch_step(states[i], n, batches[i], states[i + 1]),
        forall|i: int| 0 <= i < batches.len() - 1 ==> (#[trigger] batches[i]).len() > 0,
        batches.last().len() == 0,
    ensures
        concat_batches(batches) == plain_rows(sorted),
        stably_sorted(obs, input, sorted),
        states.last().len() == 0,
        forall|i: int| 0 <= i < batches.len() - 2 ==> (#[trigger] batches[i]).len() == n,
{
    lemma_batches_read_all(states, batches, n);
}

/// Sorts the rows of its input by the plan's ORDER BY clauses.
pub struct ExternalMergeSortExecutor<'p> {
    pub plan: &'p SortPlan,
    pub output_schema: &'p Schema,
    pub input: Vec<ExecutorRow>,
    pub comparator: TupleComparator,
    /// The sorted rows, once `init` has run.
    pub sorted_iterator: Option<MergeSortRunIterator>,
}

impl<'p> ExternalMergeSortExecutor<'p> {
    pub fn new(plan: &'p SortPlan, output_schema: &'p Schema, input: Vec<ExecutorRow>) -> (res: Self)
        ensures
            res.plan == plan,
            res.output_schema == output_schema,
            res.input@ == input@,
            res.comparator.order_bys@ == plan.order_bys@,
            res.sorted_iterator is None,
    {
        ExternalMergeSortExecutor {
            plan,
            output_schema,
            input,
            comparator: TupleComparator::new(clone_order_bys(&plan.order_bys)),
            sorted_iterator: None,
        }
    }

    /// Sorts the input: keys every row, then merges runs of one row each
    /// pairwise, pass after pass. The first row whose key fails gives the
    /// error; otherwise the sorted run holds every input row's values once,
    /// no key greater than one behind it, rows of equal keys in input order.
    pub fn init(&mut self) -> (res: Result<(), ExecutionError>)
        requires
            old(self).comparator.order_bys@ == old(self).plan.order_bys@,
            forall|k: int| 0 <= k < old(self).input@.len()
                ==> orders_refs_ok(old(self).plan.order_bys@, (#[trigger] old(self).input@[k]).values@.len()),
            forall|i: int, j: int| 0 <= i < old(self).input@.len() && 0 <= j < old(self).input@.len()
                ==> keys_comparable(old(self).plan.order_bys@, (#[trigger] old(self).input@[i]).values@, (#[trigger] old(self).input@[j]).values@),
        ensures
            final(self).plan == old(self).plan,
            final(self).output_schema == old(self).output_schema,
            final(self).comparator.order_bys@ == old(self).comparator.order_bys@,
            match first_key_error(old(self).plan.order_bys@, rows_of(old(self).input@), old(self).input@.len() as int) {
                Some(e) => res == Err::<(), ExecutionError>(e),
                None => {
                    &&& res is Ok
                    &&& final(self).sorted_iterator matches Some(it)
                    &&& entry_values(it.entries@).to_multiset() == input_values(rows_of(old(self).input@)).to_multiset()
                    &&& stably_sorted(old(self).plan.order_bys@, input_values(rows_of(old(self).input@)), entry_values(it.entries@))
                },
            },
    {
        broadcast use vstd::seq_lib::group_to_multiset_ensures;
        broadcast use vstd::multiset::group_multiset_axioms;
        let ghost obs = self.plan.order_bys@;
        let ghost rows = rows_of(self.input@);
        let len: usize = self.input.len();
        let ghost n = rows.len();
        let ghost pool = key_pool(obs, rows);
        proof {
            assert forall|i: int, j: int| 0 <= i < rows.len() && 0 <= j < rows.len() implies keys_comparable(obs, #[trigger] rows[i].values, #[trigger] rows[j].values) by {
                assert(keys_comparable(obs, self.input@[i].values@, self.input@[j].values@));
            }
            lemma_key_pool_comparable(obs, rows);
        }
        let mut input: Vec<ExecutorRow> = Vec::new();
        std::mem::swap(&mut input, &mut self.input);
        let mut runs: Vec<MergeSortRun> = Vec::new();
        let ghost vals = input_values(rows);
        let ghost mut pss: Seq<Seq<int>> = Seq::empty();
        proof {
            assert(input_values(rows.take(0)) =~= Seq::<Seq<Value>>::empty());
            assert(runs_values(runs@) =~= input_values(rows.take(0)).to_multiset());
            assert(Seq::new(0, |k: int| k) =~= Seq::<int>::empty());
            assert(pos_bag(pss) =~= vstd::multiset::Multiset::<int>::empty());
            vstd::seq_lib::to_multiset_len(Seq::<int>::empty());
            vstd::multiset::lemma_multiset_empty_len(Seq::<int>::empty().to_multiset());
        }
        let mut i: usize = 0;
        while input.len() > 0
            invariant
                i + input@.len() == n,
                n == rows.len(),
                n == len,
                rows == rows_of(old(self).input@),
                rows_of(input@) == rows.skip(i as int),
                obs == self.plan.order_bys@,
                obs == self.comparator.order_bys@,
                pool == key_pool(obs, rows),
                self.plan == old(self).plan,
                self.output_schema == old(self).output_schema,
                self.comparator == old(self).comparator,
                forall|k: int| 0 <= k < rows.len() ==> orders_refs_ok(obs, (#[trigger] rows[k]).values.len()),
                first_key_error(obs, rows, i as int) is None,
                vals == input_values(rows),
                runs_ok(runs@, pss, obs, pool, vals),
                pss.len() == i,
                forall|k: int| 0 <= k < i ==> #[trigger] pss[k] == seq![k],
                runs_ordered(pss),
                pos_bag(pss) == Seq::new(i as nat, |k: int| k).to_multiset(),
                runs_values(runs@) == input_values(rows.take(i as int)).to_multiset(),
            decreases input@.len(),
        {
            let ghost before = input@;
            let row = input.remove(0);
            assert(row@ == rows[i as int]) by {
                assert(rows_of(before)[0] == row@);
            }
            assert(rows_of(input@) =~= rows.skip(i as int + 1)) by {
                assert forall|k: int| 0 <= k < input@.len() implies #[trigger] rows_of(input@)[k] == rows.skip(i as int + 1)[k] by {
                    assert(input@[k] == before[k + 1]);
                    assert(rows_of(before)[k + 1] == rows.skip(i as int)[k + 1]);
                }
            }
            assert(orders_refs_ok(obs, rows[i as int].values.len()));
            let key = match generate_sort_key(row.values.as_slice(), self.plan.order_bys.as_slice()) {
                Ok(key) => key,
                Err(e) => {
                    proof {
                        assert(row.values@ == rows[i as int].values);
                        assert(first_key_error(obs, rows, i as int + 1) == Some(e));
                        lemma_key_error_sticks(obs, rows, i as int + 1, n as int);
                    }
                    return Err(e);
                },
            };
            proof {
                lemma_sort_key_len(obs, row.values@, obs.len() as int);
                assert(pool.contains(key@));
            }
            let ghost v = row.values@;
            let entry = SortEntry { key, values: row.values };
            let mut one: Vec<SortEntry> = Vec::new();
            one.push(entry);
            let run = MergeSortRun::new(one);
            let ghost runs0 = runs@;
            runs.push(run);
            proof {
                lemma_runs_values_push(runs0, run);
                assert(Seq::<Seq<Value>>::empty().to_multiset() =~= vstd::multiset::Multiset::<Seq<Value>>::empty()) by {
                    lemma_no_values(Seq::<SortEntry>::empty());
                    assert(entry_values(Seq::<SortEntry>::empty()) =~= Seq::<Seq<Value>>::empty());
                }
                vstd::seq_lib::to_multiset_build(Seq::<Seq<Value>>::empty(), v);
                assert(entry_values(run.entries@) =~= Seq::<Seq<Value>>::empty().push(v));
                assert(entry_values(run.entries@).to_multiset() =~= vstd::multiset::Multiset::<Seq<Value>>::empty().insert(v));
                assert(v == rows[i as int].values);
                assert(input_values(rows.take(i as int + 1)) =~= input_values(rows.take(i as int)).push(v));
                vstd::seq_lib::to_multiset_build(input_values(rows.take(i as int)), v);
                assert(runs_values(runs@) =~= input_values(rows.take(i as int + 1)).to_multiset());
                let ps0 = pss;
                pss = ps0.push(seq![i as int]);
                lemma_pos_bag_push(ps0, seq![i as int]);
                vstd::seq_lib::to_multiset_build(Seq::new(i as nat, |k: int| k), i as int);
                assert(Seq::new((i + 1) as nat, |k: int| k) =~= Seq::new(i as nat, |k: int| k).push(i as int));
                vstd::seq_lib::to_multiset_build(Seq::<int>::empty(), i as int);
                assert(seq![i as int] =~= Seq::<int>::empty().push(i as int));
                vstd::seq_lib::to_multiset_len(Seq::<int>::empty());
                vstd::multiset::lemma_multiset_empty_len(Seq::<int>::empty().to_multiset());
                assert(pos_bag(pss) =~= Seq::new((i + 1) as nat, |k: int| k).to_multiset());
                assert(entries_ok(run.entries@, obs, pool));
                assert(ranked(run.entries@, seq![i as int], obs));
                assert(entries_at(run.entries@, seq![i as int], vals));
                assert forall|k: int| 0 <= k < runs@.len() implies {
                    &&& entries_ok((#[trigger] runs@[k]).entries@, obs, pool)
                    &&& ranked(runs@[k].entries@, pss[k], obs)
                    &&& entries_at(runs@[k].entries@, pss[k], vals)
                } by {
                    if k < runs0.len() {
                        assert(runs@[k] == runs0[k] && pss[k] == ps0[k]);
                    }
                }
                assert forall|k: int| 0 <= k < i + 1 implies #[trigger] pss[k] == seq![k] by {
                    if k < i {
                        assert(pss[k] == ps0[k]);
                    }
                }
                assert forall|a: int, b: int| 0 <= a < b < pss.len() implies all_before(#[trigger] pss[a], #[trigger] pss[b]) by {
                    assert(pss[a] == seq![a] && pss[b] == seq![b]);
                }
            }
            i = i + 1;
        }
        let (sorted, po) = merge_runs(runs, &self.comparator, Ghost(pool), Ghost(vals), Ghost(pss));
        proof {
            assert(rows.take(n as int) =~= rows);
            assert(vals.len() == n);
            lemma_stably_sorted(sorted.entries@, po@, obs, pool, vals);
        }
        self.sorted_iterator = Some(sorted.into_iter());
        Ok(())
    }

    /// The next batch of sorted rows, at most `batch_size`; before `init`
    /// there are none to give.
    pub fn next(&mut self, batch_size: usize) -> (res: Result<Vec<ExecutorRow>, ExecutionError>)
        ensures
            final(self).plan == old(self).plan,
            final(self).output_schema == old(self).output_schema,
            match old(self).sorted_iterator {
                None => res == Err::<Vec<ExecutorRow>, ExecutionError>(ExecutionError::Uninitialised)
                    && final(self).sorted_iterator is None,
                Some(it) => {
                    let k = min_len(batch_size as nat, it.entries@.len()) as int;
                    &&& res matches Ok(b) && rows_of(b@) == plain_rows(entry_values(it.entries@).take(k))
                    &&& final(self).sorted_iterator matches Some(rest) && rest.entries@ == it.entries@.skip(k)
                    &&& batch_step(
                        plain_rows(entry_values(it.entries@)),
                        batch_size as nat,
                        rows_of(res->Ok_0@),
                        plain_rows(entry_values(final(self).sorted_iterator->Some_0.entries@)),
                    )
                },
            },
    {
        let mut taken: Option<MergeSortRunIterator> = None;
        std::mem::swap(&mut taken, &mut self.sorted_iterator);
        match taken {
            None => Err(ExecutionError::Uninitialised),
            Some(mut it) => {
                let ghost all = it.entries@;
                let mut out: Vec<ExecutorRow> = Vec::new();
                while out.len() < batch_size && it.entries.len() > 0
                    invariant
                        out@.len() <= batch_size,
                        out@.len() <= all.len(),
                        it.entries@ == all.skip(out@.len() as int),
                        rows_of(out@) == plain_rows(entry_values(all).take(out@.len() as int)),
                    decreases it.entries@.len(),
                {
                    let ghost k = out@.len() as int;
                    let ghost e0 = it.entries@;
                    assert(e0[0] == all[k]);
                    let ghost out0 = out@;
                    if let Some(row) = it.next() {
                        assert(row@ == RowView { rid: None, values: entry_values(all)[k] });
                        out.push(row);
                        assert(rows_of(out@) =~= rows_of(out0).push(row@));
                        assert(plain_rows(entry_values(all).take(k + 1)) =~= plain_rows(entry_values(all).take(k)).push(row@));
                        assert(it.entries@ =~= all.skip(k + 1));
                        assert(rows_of(out@) =~= plain_rows(entry_values(all).take(k + 1)));
                    }
                }
                proof {
                    let k = out@.len() as int;
                    assert(plain_rows(entry_values(all).take(k)) =~= plain_rows(entry_values(all)).take(k));
                    assert(plain_rows(entry_values(it.entries@)) =~= plain_rows(entry_values(all)).skip(k));
                }
                self.sorted_iterator = Some(it);
                Ok(out)
            },
        }
    }
}

} // verus!
