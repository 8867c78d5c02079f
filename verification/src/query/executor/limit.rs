use vstd::prelude::*;
use crate::catalog::schema::Schema;
use crate::query::executor::engine::{ExecutorRow, min_len, rows_of, take_batch};
use crate::query::executor::error::ExecutionError;
use crate::query::executor::expression::{eval, evaluate_expression, refs_ok};
use crate::query::planner::plan::LimitPlan;
use crate::types::value::Value;

verus! {

/// How many rows a LIMIT lets through, read from the value of its
/// expression: NULL sets no limit; a negative number, a number beyond a
/// machine index, or a value that is not an integer is an error.
pub open spec fn limit_of(v: Value) -> Result<Option<usize>, ExecutionError> {
    match v {
        Value::Null(_) => Ok(None),
        Value::SmallInt(n) => if n >= 0 { Ok(Some(n as usize)) } else { Err(ExecutionError::NegativeLimit) },
        Value::Integer(n) => if n >= 0 { Ok(Some(n as usize)) } else { Err(ExecutionError::NegativeLimit) },
        Value::BigInt(n) => if n < 0 {
            Err(ExecutionError::NegativeLimit)
        } else if n > usize::MAX {
            Err(ExecutionError::NumericOutOfRange)
        } else {
            Ok(Some(n as usize))
        },
        _ => Err(ExecutionError::ExpectedInteger(v)),
    }
}

/// How many rows the next batch takes: at most `batch_size`, at most what
/// the limit still lets through, at most what is left.
pub open spec fn limit_take(remaining: Option<usize>, batch_size: nat, left: nat) -> nat {
    match remaining {
        None => min_len(batch_size, left),
        Some(r) => min_len(min_len(batch_size, r as nat), left),
    }
}

/// Passes on the rows of its input until its limit is reached.
pub struct LimitExecutor<'p> {
    pub plan: &'p LimitPlan,
    pub output_schema: &'p Schema,
    pub input: Vec<ExecutorRow>,
    /// How many more rows may pass; `None` for no limit.
    pub remaining: Option<usize>,
}

impl<'p> LimitExecutor<'p> {
    /// Before `init` no row passes.
    pub fn new(plan: &'p LimitPlan, output_schema: &'p Schema, input: Vec<ExecutorRow>) -> (res: Self)
        ensures
            res.plan == plan,
            res.output_schema == output_schema,
            res.input@ == input@,
            res.remaining == Some(0usize),
    {
        LimitExecutor { plan, output_schema, input, remaining: Some(0) }
    }

    /// Evaluates the limit, which refers to no column.
    pub fn init(&mut self) -> (res: Result<(), ExecutionError>)
        requires
            refs_ok(old(self).plan.limit, 0, 0),
        ensures
            final(self).plan == old(self).plan,
            final(self).output_schema == old(self).output_schema,
            final(self).input@ == old(self).input@,
            match eval(old(self).plan.limit, Seq::<Value>::empty(), Seq::<Value>::empty()) {
                Err(e) => res == Err::<(), ExecutionError>(e),
                Ok(v) => match limit_of(v) {
                    Err(e) => res == Err::<(), ExecutionError>(e),
                    Ok(l) => res is Ok && final(self).remaining == l,
                },
            },
    {
        let empty: Vec<Value> = Vec::new();
        proof {
            assert(empty@ =~= Seq::<Value>::empty());
        }
        let v = evaluate_expression(&self.plan.limit, empty.as_slice())?;
        let remaining = match v {
            Value::Null(_) => None,
            Value::SmallInt(n) => {
                if n < 0 {
                    return Err(ExecutionError::NegativeLimit);
                }
                Some(n as usize)
            },
            Value::Integer(n) => {
                if n < 0 {
                    return Err(ExecutionError::NegativeLimit);
                }
                Some(n as usize)
            },
            Value::BigInt(n) => {
                if n < 0 {
                    return Err(ExecutionError::NegativeLimit);
                }
                let m = n as u64;
                if m > usize::MAX as u64 {
                    return Err(ExecutionError::NumericOutOfRange);
                }
                Some(m as usize)
            },
            other => return Err(ExecutionError::ExpectedInteger(other)),
        };
        self.remaining = remaining;
        Ok(())
    }

    /// The next batch: at most `batch_size` rows, and no more than the
    /// limit still lets through.
    pub fn next(&mut self, batch_size: usize) -> (res: Result<Vec<ExecutorRow>, ExecutionError>)
        ensures
            final(self).plan == old(self).plan,
            final(self).output_schema == old(self).output_schema,
            match res {
                Ok(b) => {
                    let k = limit_take(old(self).remaining, batch_size as nat, old(self).input@.len()) as int;
                    &&& rows_of(b@) == rows_of(old(self).input@).take(k)
                    &&& rows_of(final(self).input@) == rows_of(old(self).input@).skip(k)
                    &&& final(self).remaining == match old(self).remaining {
                        None => None,
                        Some(r) => Some((r - k) as usize),
                    }
                },
                Err(_) => false,
            },
    {
        let take = match self.remaining {
            None => batch_size,
            Some(r) => if r < batch_size { r } else { batch_size },
        };
        let batch = take_batch(&mut self.input, take);
        proof {
            assert(rows_of(batch@).len() == batch@.len());
        }
        self.remaining = match self.remaining {
            None => None,
            Some(r) => Some(r - batch.len()),
        };
        Ok(batch)
    }
}

} // verus!
