use vstd::prelude::*;
use crate::catalog::types::SqlType;
use crate::common::position::index_of;
use crate::query::executor::error::ExecutionError;
use crate::query::executor::expression::{
    eval_arithmetic, eval_comparison_is_true, int_of, spec_arith, spec_compare, spec_keep,
};
use crate::query::planner::expression::{ArithmeticType, ComparisonType, PlannedExpression};
use crate::storage::index::values_eq;
use crate::types::value::{Value, same_values};

verus! {

/// The aggregate functions.
#[derive(Debug, Clone, Copy, PartialEq, Eq, Structural)]
pub enum AggregationType {
    Count,
    Sum,
    Min,
    Max,
}

/// The group-by values that a group is found by.
pub struct AggregateKey {
    pub group_bys: Vec<Value>,
}

/// The running aggregates of a group, one per aggregation.
pub struct AggregateValue {
    pub values: Vec<Value>,
}

/// Folding one new value into a running aggregate: NULLs are ignored, the
/// first non-NULL value starts the aggregate (a count starts at 1), later
/// ones add to it or replace it when smaller (MIN) or greater (MAX).
pub open spec fn combine_one(t: AggregationType, prev: Value, new: Value) -> Result<Value, ExecutionError> {
    if new is Null {
        Ok(prev)
    } else if prev is Null {
        match t {
            AggregationType::Count => Ok(Value::Integer(1)),
            _ => Ok(new),
        }
    } else {
        match t {
            AggregationType::Count => spec_arith(ArithmeticType::Plus, prev, Value::Integer(1)),
            AggregationType::Sum => spec_arith(ArithmeticType::Plus, prev, new),
            AggregationType::Min => match spec_keep(spec_compare(new, prev, ComparisonType::LessThan)) {
                Err(e) => Err(e),
                Ok(true) => Ok(new),
                Ok(false) => Ok(prev),
            },
            AggregationType::Max => match spec_keep(spec_compare(new, prev, ComparisonType::GreaterThan)) {
                Err(e) => Err(e),
                Ok(true) => Ok(new),
                Ok(false) => Ok(prev),
            },
        }
    }
}

/// A number that is not NULL.
pub open spec fn is_number(v: Value) -> bool {
    v is SmallInt || v is Integer || v is BigInt
}

/// Folding a number into a running MAX keeps the greater of the two, into a
/// running MIN the smaller: the result is one of them, at least (MAX) or at
/// most (MIN) each.
pub proof fn lemma_min_max_keep_extreme(t: AggregationType, prev: Value, new: Value)
    requires
        t == AggregationType::Max || t == AggregationType::Min,
        is_number(prev),
        is_number(new),
    ensures
        combine_one(t, prev, new) is Ok,
        combine_one(t, prev, new)->Ok_0 == prev || combine_one(t, prev, new)->Ok_0 == new,
        t == AggregationType::Max ==> {
            &&& int_of(combine_one(t, prev, new)->Ok_0) >= int_of(prev)
            &&& int_of(combine_one(t, prev, new)->Ok_0) >= int_of(new)
        },
        t == AggregationType::Min ==> {
            &&& int_of(combine_one(t, prev, new)->Ok_0) <= int_of(prev)
            &&& int_of(combine_one(t, prev, new)->Ok_0) <= int_of(new)
        },
{
}

/// A running aggregate after folding in `vs`, one value after another,
/// from `start`.
pub open spec fn fold_aggregate(t: AggregationType, start: Value, vs: Seq<Value>) -> Result<Value, ExecutionError>
    decreases vs.len(),
{
    if vs.len() == 0 {
        Ok(start)
    } else {
        match fold_aggregate(t, start, vs.drop_last()) {
            Err(e) => Err(e),
            Ok(acc) => combine_one(t, acc, vs.last()),
        }
    }
}

/// Folding numbers into an empty (NULL) MAX gives the greatest of them, and
/// into an empty MIN the smallest: a value folded in, at least (at most)
/// every value folded in.
pub proof fn lemma_fold_min_max(t: AggregationType, start: Value, vs: Seq<Value>)
    requires
        t == AggregationType::Max || t == AggregationType::Min,
        start is Null,
        vs.len() > 0,
        forall|i: int| 0 <= i < vs.len() ==> is_number(#[trigger] vs[i]),
    ensures
        fold_aggregate(t, start, vs) is Ok,
        is_number(fold_aggregate(t, start, vs)->Ok_0),
        exists|i: int| 0 <= i < vs.len() && vs[i] == fold_aggregate(t, start, vs)->Ok_0,
        t == AggregationType::Max ==> forall|i: int| 0 <= i < vs.len() ==> int_of(#[trigger] vs[i]) <= int_of(fold_aggregate(t, start, vs)->Ok_0),
        t == AggregationType::Min ==> forall|i: int| 0 <= i < vs.len() ==> int_of(#[trigger] vs[i]) >= int_of(fold_aggregate(t, start, vs)->Ok_0),
    decreases vs.len(),
{
    let n = vs.len() - 1;
    let front = vs.drop_last();
    assert(is_number(vs[n]));
    if n == 0 {
        assert(fold_aggregate(t, start, front) == Ok::<Value, ExecutionError>(start));
        assert(vs[0] == vs.last());
    } else {
        assert forall|i: int| 0 <= i < front.len() implies is_number(#[trigger] front[i]) by {
            assert(front[i] == vs[i]);
        }
        lemma_fold_min_max(t, start, front);
        let acc = fold_aggregate(t, start, front)->Ok_0;
        lemma_min_max_keep_extreme(t, acc, vs.last());
        let j = choose|j: int| 0 <= j < front.len() && front[j] == acc;
        assert(vs[j] == acc);
        assert(vs[n] == vs.last());
        assert forall|i: int| 0 <= i < vs.len() implies (t == AggregationType::Max ==> int_of(#[trigger] vs[i]) <= int_of(fold_aggregate(t, start, vs)->Ok_0))
            && (t == AggregationType::Min ==> int_of(vs[i]) >= int_of(fold_aggregate(t, start, vs)->Ok_0)) by {
            if i < n {
                assert(front[i] == vs[i]);
            }
        }
    }
}

/// Folding a NULL into an aggregate leaves it as it was, whatever it is.
pub proof fn lemma_null_ignored(t: AggregationType, prev: Value, new: Value)
    requires
        new is Null,
    ensures
        combine_one(t, prev, new) == Ok::<Value, ExecutionError>(prev),
{
}

/// The sum of integer values.
pub open spec fn int_total(vs: Seq<Value>) -> int
    decreases vs.len(),
{
    if vs.len() == 0 {
        0
    } else {
        int_total(vs.drop_last()) + int_of(vs.last())
    }
}

/// Folding integers into an empty (NULL) COUNT gives how many there are,
/// and into an empty SUM their sum, where every running sum is an integer.
pub proof fn lemma_fold_count_sum(start: Value, vs: Seq<Value>)
    requires
        start is Null,
        0 < vs.len() <= i32::MAX,
        forall|i: int| 0 <= i < vs.len() ==> (#[trigger] vs[i]) is Integer,
        forall|k: int| 1 <= k <= vs.len() ==> i32::MIN <= #[trigger] int_total(vs.take(k)) <= i32::MAX,
    ensures
        fold_aggregate(AggregationType::Count, start, vs) == Ok::<Value, ExecutionError>(Value::Integer(vs.len() as i32)),
        fold_aggregate(AggregationType::Sum, start, vs) == Ok::<Value, ExecutionError>(Value::Integer(int_total(vs) as i32)),
    decreases vs.len(),
{
    let n = vs.len() - 1;
    let front = vs.drop_last();
    assert(vs[n] is Integer);
    assert(vs.take(vs.len() as int) =~= vs);
    let v = vs.last();
    assert(v == vs[n]);
    assert(int_of(v) == v->Integer_0 as int);
    if n == 0 {
        assert(front.len() == 0);
        assert(fold_aggregate(AggregationType::Count, start, front) == Ok::<Value, ExecutionError>(start));
        assert(fold_aggregate(AggregationType::Sum, start, front) == Ok::<Value, ExecutionError>(start));
        assert(int_total(front) == 0);
        assert(int_total(vs) == int_of(v));
        assert(combine_one(AggregationType::Count, start, v) == Ok::<Value, ExecutionError>(Value::Integer(1)));
        assert(combine_one(AggregationType::Sum, start, v) == Ok::<Value, ExecutionError>(v));
    } else {
        assert forall|i: int| 0 <= i < front.len() implies (#[trigger] front[i]) is Integer by {
            assert(front[i] == vs[i]);
        }
        assert forall|k: int| 1 <= k <= front.len() implies i32::MIN <= #[trigger] int_total(front.take(k)) <= i32::MAX by {
            assert(front.take(k) =~= vs.take(k));
        }
        lemma_fold_count_sum(start, front);
        assert(vs.take(n) =~= front);
        assert(i32::MIN <= int_total(vs.take(n)) <= i32::MAX);
        assert(i32::MIN <= int_total(vs.take(n + 1)) <= i32::MAX);
        let c = Value::Integer(n as i32);
        let t = Value::Integer(int_total(front) as i32);
        assert(int_of(c) == n);
        assert(int_of(t) == int_total(front));
        assert(int_total(vs) == int_total(front) + int_of(v));
        assert(combine_one(AggregationType::Count, c, v) == spec_arith(ArithmeticType::Plus, c, Value::Integer(1)));
        assert(combine_one(AggregationType::Sum, t, v) == spec_arith(ArithmeticType::Plus, t, v));
    }
}

/// The running aggregates after folding in the first `k` new values, and
/// the error that stopped the folding, if any.
pub open spec fn combine_prefix(ts: Seq<AggregationType>, l: Seq<Value>, r: Seq<Value>, k: int) -> (Seq<Value>, Option<ExecutionError>)
    decreases k,
{
    if k <= 0 {
        (l, None)
    } else {
        let (s, e) = combine_prefix(ts, l, r, k - 1);
        if e is Some {
            (s, e)
        } else {
            match combine_one(ts[k - 1], s[k - 1], r[k - 1]) {
                Ok(v) => (s.update(k - 1, v), None),
                Err(err) => (s, Some(err)),
            }
        }
    }
}

pub open spec fn min3(a: nat, b: nat, c: nat) -> nat {
    if a <= b && a <= c { a } else if b <= c { b } else { c }
}

proof fn lemma_prefix_len(ts: Seq<AggregationType>, l: Seq<Value>, r: Seq<Value>, k: int)
    requires
        k <= l.len(),
    ensures
        combine_prefix(ts, l, r, k).0.len() == l.len(),
        forall|j: int| k <= j < l.len() ==> #[trigger] combine_prefix(ts, l, r, k).0[j] == l[j],
    decreases k,
{
    if k > 0 {
        lemma_prefix_len(ts, l, r, k - 1);
    }
}

proof fn lemma_prefix_err_sticks(ts: Seq<AggregationType>, l: Seq<Value>, r: Seq<Value>, k: int, n: int)
    requires
        0 <= k <= n,
        combine_prefix(ts, l, r, k).1 is Some,
    ensures
        combine_prefix(ts, l, r, n) == combine_prefix(ts, l, r, k),
    decreases n - k,
{
    if k < n {
        lemma_prefix_err_sticks(ts, l, r, k, n - 1);
    }
}

/// The aggregation types of a list of aggregations.
pub open spec fn agg_types(aggs: Seq<(AggregationType, PlannedExpression)>) -> Seq<AggregationType> {
    aggs.map_values(|a: (AggregationType, PlannedExpression)| a.0)
}

/// A table of groups, each found by its key.
pub struct AggregationHashTable {
    pub aggregations: Vec<(AggregationType, PlannedExpression)>,
    pub table: Vec<(AggregateKey, AggregateValue)>,
}

/// The groups of a table: each key with its running aggregates.
pub open spec fn groups(t: Seq<(AggregateKey, AggregateValue)>) -> Seq<(Seq<Value>, Seq<Value>)> {
    t.map_values(|e: (AggregateKey, AggregateValue)| (e.0.group_bys@, e.1.values@))
}

/// The position of the group whose key holds the same values as `key`.
pub open spec fn group_of(t: Seq<(Seq<Value>, Seq<Value>)>, key: Seq<Value>) -> Option<int> {
    if exists|i: int| 0 <= i < t.len() && same_values(#[trigger] t[i].0, key) {
        Some(choose|i: int| 0 <= i < t.len() && same_values(#[trigger] t[i].0, key))
    } else {
        None
    }
}

impl AggregationHashTable {
    /// No two groups have the same key.
    pub open spec fn wf(&self) -> bool {
        forall|i: int, j: int| 0 <= i < j < self.table@.len()
            ==> !same_values(#[trigger] groups(self.table@)[i].0, #[trigger] groups(self.table@)[j].0)
    }

    pub fn new(aggregations: Vec<(AggregationType, PlannedExpression)>) -> (res: Self)
        ensures
            res.wf(),
            res.aggregations@ == aggregations@,
            res.table@.len() == 0,
    {
        AggregationHashTable { aggregations, table: Vec::new() }
    }

    /// A group's first running aggregates: a NULL integer per aggregation.
    pub fn make_initial_value(&self) -> (res: AggregateValue)
        ensures
            res.values@.len() == self.aggregations@.len(),
            forall|i: int| 0 <= i < res.values@.len() ==> #[trigger] res.values@[i] == Value::Null(SqlType::Integer),
    {
        let mut values: Vec<Value> = Vec::new();
        let mut i: usize = 0;
        while i < self.aggregations.len()
            invariant
                i <= self.aggregations@.len(),
                values@.len() == i,
                forall|k: int| 0 <= k < values@.len() ==> #[trigger] values@[k] == Value::Null(SqlType::Integer),
            decreases self.aggregations@.len() - i,
        {
            values.push(Value::Null(SqlType::Integer));
            i = i + 1;
        }
        AggregateValue { values }
    }

    /// Folds `right` into `left`, aggregation by aggregation, as far as the
    /// shortest of the three lists goes; stops at the first error.
    pub fn combine_aggregate_values(
        aggregations: &[(AggregationType, PlannedExpression)],
        left: &mut AggregateValue,
        right: AggregateValue,
    ) -> (res: Result<(), ExecutionError>)
        ensures
            ({
                let n = min3(aggregations@.len(), old(left).values@.len(), right.values@.len());
                let out = combine_prefix(agg_types(aggregations@), old(left).values@, right.values@, n as int);
                &&& final(left).values@ == out.0
                &&& (res is Ok <==> out.1 is None)
                &&& (res matches Err(e) ==> out.1 == Some(e))
            }),
    {
        let ghost ts = agg_types(aggregations@);
        let ghost l0 = left.values@;
        let n: usize = if aggregations.len() <= left.values.len() && aggregations.len() <= right.values.len() {
            aggregations.len()
        } else if left.values.len() <= right.values.len() {
            left.values.len()
        } else {
            right.values.len()
        };
        assert(n == min3(aggregations@.len(), l0.len(), right.values@.len()));
        proof { lemma_prefix_len(ts, l0, right.values@, 0); }
        let mut i: usize = 0;
        while i < n
            invariant
                i <= n,
                n <= aggregations@.len(),
                n <= l0.len(),
                n <= right.values@.len(),
                n == min3(aggregations@.len(), l0.len(), right.values@.len()),
                l0 == old(left).values@,
                ts == agg_types(aggregations@),
                combine_prefix(ts, l0, right.values@, index_of(i)) == (left.values@, None::<ExecutionError>),
            decreases n - i,
        {
            proof { lemma_prefix_len(ts, l0, right.values@, index_of(i)); }
            let t = aggregations[i].0;
            let prev = left.values[i].clone();
            let new = right.values[i].clone();
            let ghost gp = prev;
            let ghost gn = new;
            assert(ts[index_of(i)] == t);
            let step: Result<Value, ExecutionError> = if new.is_null() {
                Ok(prev)
            } else if prev.is_null() {
                match t {
                    AggregationType::Count => Ok(Value::Integer(1)),
                    _ => Ok(new),
                }
            } else {
                match t {
                    AggregationType::Count => eval_arithmetic(ArithmeticType::Plus, prev, Value::Integer(1)),
                    AggregationType::Sum => eval_arithmetic(ArithmeticType::Plus, prev, new),
                    AggregationType::Min => {
                        match eval_comparison_is_true(new.clone(), prev.clone(), ComparisonType::LessThan) {
                            Err(e) => Err(e),
                            Ok(true) => Ok(new),
                            Ok(false) => Ok(prev),
                        }
                    },
                    AggregationType::Max => {
                        match eval_comparison_is_true(new.clone(), prev.clone(), ComparisonType::GreaterThan) {
                            Err(e) => Err(e),
                            Ok(true) => Ok(new),
                            Ok(false) => Ok(prev),
                        }
                    },
                }
            };
            assert(step == combine_one(t, gp, gn));
            match step {
                Ok(v) => {
                    left.values.set(i, v);
                },
                Err(e) => {
                    proof { lemma_prefix_err_sticks(ts, l0, right.values@, index_of(i) + 1, n as int); }
                    return Err(e);
                },
            }
            i = i + 1;
        }
        Ok(())
    }

    /// Adds a row's aggregates to the group of `key`: folded into the group
    /// where there is one, as a new group where there is none.
    pub fn insert_combine(&mut self, key: AggregateKey, value: AggregateValue) -> (res: Result<(), ExecutionError>)
        requires
            old(self).wf(),
        ensures
            final(self).wf(),
            final(self).aggregations@ == old(self).aggregations@,
            match group_of(groups(old(self).table@), key.group_bys@) {
                None => {
                    &&& res is Ok
                    &&& groups(final(self).table@) == groups(old(self).table@).push((key.group_bys@, value.values@))
                },
                Some(i) => {
                    let g = groups(old(self).table@)[i];
                    let n = min3(old(self).aggregations@.len(), g.1.len(), value.values@.len());
                    let out = combine_prefix(agg_types(old(self).aggregations@), g.1, value.values@, n as int);
                    &&& groups(final(self).table@) == groups(old(self).table@).update(i, (g.0, out.0))
                    &&& (res is Ok <==> out.1 is None)
                    &&& (res matches Err(e) ==> out.1 == Some(e))
                },
            },
    {
        let ghost old_groups = groups(self.table@);
        let mut i: usize = 0;
        while i < self.table.len()
            invariant
                i <= self.table@.len(),
                old_groups == groups(self.table@),
                old_groups == groups(old(self).table@),
                self.aggregations@ == old(self).aggregations@,
                self.wf(),
                forall|j: int| 0 <= j < i ==> !same_values(#[trigger] old_groups[j].0, key.group_bys@),
            decreases self.table@.len() - i,
        {
            if values_eq(&self.table[i].0.group_bys, &key.group_bys) {
                proof {
                    assert(same_values(old_groups[index_of(i)].0, key.group_bys@));
                    let c = choose|k: int| 0 <= k < old_groups.len() && same_values(#[trigger] old_groups[k].0, key.group_bys@);
                    if c > index_of(i) {
                        lemma_same_values_symmetric(old_groups[c].0, key.group_bys@);
                        lemma_same_values_transitive(old_groups[index_of(i)].0, key.group_bys@, old_groups[c].0);
                        assert(!same_values(groups(self.table@)[index_of(i)].0, groups(self.table@)[c].0));
                    }
                    assert(c == index_of(i));
                }
                let mut entry = self.table.remove(i);
                let r = Self::combine_aggregate_values(self.aggregations.as_slice(), &mut entry.1, value);
                self.table.insert(i, entry);
                proof {
                    assert(groups(self.table@) =~= old_groups.update(index_of(i), (old_groups[index_of(i)].0, entry.1.values@)));
                }
                return r;
            }
            i = i + 1;
        }
        self.table.push((key, value));
        proof {
            assert(groups(self.table@) =~= old_groups.push((key.group_bys@, value.values@)));
            assert forall|a: int, b: int| 0 <= a < b < self.table@.len() implies
                !same_values(#[trigger] groups(self.table@)[a].0, #[trigger] groups(self.table@)[b].0) by {
                if b == self.table@.len() - 1 {
                    assert(!same_values(old_groups[a].0, key.group_bys@));
                }
            }
        }
        Ok(())
    }
}

proof fn lemma_same_values_symmetric(a: Seq<Value>, b: Seq<Value>)
    requires
        same_values(a, b),
    ensures
        same_values(b, a),
{
}

proof fn lemma_same_values_transitive(a: Seq<Value>, b: Seq<Value>, c: Seq<Value>)
    requires
        same_values(a, b),
        same_values(b, c),
    ensures
        same_values(a, c),
{
    assert forall|i: int| 0 <= i < a.len() implies crate::types::value::same_value(#[trigger] a[i], c[i]) by {
        assert(crate::types::value::same_value(a[i], b[i]));
        assert(crate::types::value::same_value(b[i], c[i]));
    }
}

} // verus!
