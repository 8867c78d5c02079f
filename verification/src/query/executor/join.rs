use vstd::prelude::*;
use crate::catalog::column::Column;
use crate::catalog::schema::Schema;
use crate::common::position::index_of;
use crate::query::executor::engine::{ExecutorRow, RowView};
use crate::types::value::{Value, clone_values};

verus! {

/// NULLs of the types of the columns after the first `n`.
pub open spec fn null_tail(cols: Seq<Column>, n: int) -> Seq<Value> {
    Seq::new((cols.len() - n) as nat, |i: int| Value::Null(cols[n + i].sql_type))
}

/// A joined row: the outer values, then the inner ones, or NULLs of the
/// remaining output columns where there is no inner row.
pub open spec fn joined(cols: Seq<Column>, left: Seq<Value>, right: Option<Seq<Value>>) -> RowView {
    RowView {
        rid: None,
        values: match right {
            Some(r) => left + r,
            None => left + null_tail(cols, left.len() as int),
        },
    }
}

/// Joins an outer row with an inner row, or pads it with NULLs.
pub fn build_join_tuple(output_schema: &Schema, left_tuple: &ExecutorRow, right_tuple: Option<&ExecutorRow>) -> (res: ExecutorRow)
    requires
        right_tuple is None ==> left_tuple.values@.len() <= output_schema.columns@.len(),
    ensures
        res@ == joined(output_schema.columns@, left_tuple.values@, match right_tuple {
            Some(r) => Some(r.values@),
            None => None,
        }),
{
    let mut values = clone_values(left_tuple.values.as_slice());
    match right_tuple {
        Some(r) => {
            let mut more = clone_values(r.values.as_slice());
            values.append(&mut more);
        },
        None => {
            let n = values.len();
            let cols = &output_schema.columns;
            let ghost l = values@;
            let mut i: usize = n;
            while i < cols.len()
                invariant
                    n <= i <= cols@.len(),
                    n == l.len(),
                    values@ == l + null_tail(cols@, n as int).subrange(0, index_of(i) - n),
                decreases cols@.len() - i,
            {
                values.push(Value::Null(cols[i].sql_type()));
                i = i + 1;
                assert(values@ =~= l + null_tail(cols@, n as int).subrange(0, index_of(i) - n));
            }
            assert(null_tail(cols@, n as int).subrange(0, index_of(i) - n) =~= null_tail(cols@, n as int));
        },
    }
    ExecutorRow { rid: None, values }
}

} // verus!
