use vstd::prelude::*;
use crate::catalog::types::SqlType;

verus! {

/// A SQL value. `Null` carries the type of the missing value.
#[derive(Debug, PartialEq)]
pub enum Value {
    Boolean(bool),
    SmallInt(i16),
    Integer(i32),
    BigInt(i64),
    Varchar(String),
    Null(SqlType),
}

impl Clone for Value {
    fn clone(&self) -> (res: Self)
        ensures
            res == *self,
    {
        match self {
            Value::Boolean(b) => Value::Boolean(*b),
            Value::SmallInt(i) => Value::SmallInt(*i),
            Value::Integer(i) => Value::Integer(*i),
            Value::BigInt(i) => Value::BigInt(*i),
            Value::Varchar(s) => Value::Varchar(s.clone()),
            Value::Null(t) => Value::Null(*t),
        }
    }
}

/// The SQL type of a value.
pub open spec fn value_type(v: Value) -> SqlType {
    match v {
        Value::Boolean(_) => SqlType::Boolean,
        Value::SmallInt(_) => SqlType::SmallInt,
        Value::Integer(_) => SqlType::Integer,
        Value::BigInt(_) => SqlType::BigInt,
        Value::Varchar(_) => SqlType::Varchar,
        Value::Null(t) => t,
    }
}

/// Two values are the same SQL value (strings compared by content).
pub open spec fn same_value(a: Value, b: Value) -> bool {
    match (a, b) {
        (Value::Varchar(x), Value::Varchar(y)) => x@ == y@,
        _ => a == b,
    }
}

/// Two rows hold the same values, position by position.
pub open spec fn same_values(a: Seq<Value>, b: Seq<Value>) -> bool {
    &&& a.len() == b.len()
    &&& forall|i: int| 0 <= i < a.len() ==> same_value(#[trigger] a[i], b[i])
}

impl Value {
    pub fn sql_type(&self) -> (res: SqlType)
        ensures
            res == value_type(*self),
    {
        match self {
            Value::Boolean(_) => SqlType::Boolean,
            Value::SmallInt(_) => SqlType::SmallInt,
            Value::Integer(_) => SqlType::Integer,
            Value::BigInt(_) => SqlType::BigInt,
            Value::Varchar(_) => SqlType::Varchar,
            Value::Null(t) => *t,
        }
    }

    pub fn is_null(&self) -> (res: bool)
        ensures
            res == (*self is Null),
    {
        matches!(self, Value::Null(_))
    }
}

/// A copy of a row of values.
pub fn clone_values(v: &[Value]) -> (res: Vec<Value>)
    ensures
        res@ == v@,
{
    let mut res: Vec<Value> = Vec::new();
    let mut i: usize = 0;
    while i < v.len()
        invariant
            i <= v@.len(),
            res@ == v@.subrange(0, i as int),
        decreases v@.len() - i,
    {
        res.push(v[i].clone());
        i = i + 1;
    }
    res
}

/// Whether two values are the same SQL value.
pub fn value_eq(a: &Value, b: &Value) -> (res: bool)
    ensures
        res == same_value(*a, *b),
{
    match (a, b) {
        (Value::Boolean(x), Value::Boolean(y)) => *x == *y,
        (Value::SmallInt(x), Value::SmallInt(y)) => *x == *y,
        (Value::Integer(x), Value::Integer(y)) => *x == *y,
        (Value::BigInt(x), Value::BigInt(y)) => *x == *y,
        (Value::Varchar(x), Value::Varchar(y)) => *x == *y,
        (Value::Null(x), Value::Null(y)) => *x == *y,
        _ => false,
    }
}

} // verus!
