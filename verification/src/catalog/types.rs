use vstd::prelude::*;

verus! {

/// The SQL types a column can have.
#[derive(Debug, Clone, Copy, PartialEq, Eq, Structural)]
pub enum SqlType {
    Boolean,
    SmallInt,
    Integer,
    BigInt,
    Decimal,
    Varchar,
}

/// Bytes taken in the fixed-length part of a tuple by a value of a
/// fixed-size type.
pub open spec fn spec_inline_size(t: SqlType) -> nat {
    match t {
        SqlType::Boolean => 1,
        SqlType::SmallInt => 2,
        SqlType::Integer => 4,
        SqlType::BigInt => 8,
        SqlType::Decimal => 8,
        SqlType::Varchar => 0,
    }
}

impl SqlType {
    /// Every type but VARCHAR is stored in the fixed-length part of a tuple.
    pub fn is_inlined(self) -> (res: bool)
        ensures
            res == (self != SqlType::Varchar),
    {
        !matches!(self, SqlType::Varchar)
    }

    /// The size occupied in the inlined part of the tuple.
    pub fn inline_size(self) -> (res: usize)
        requires
            self != SqlType::Varchar,
        ensures
            res == spec_inline_size(self),
    {
        match self {
            SqlType::Boolean => 1,
            SqlType::SmallInt => 2,
            SqlType::Integer => 4,
            SqlType::BigInt => 8,
            SqlType::Decimal => 8,
            SqlType::Varchar => 0,
        }
    }

    /// VARCHAR is the one type of variable length.
    pub fn is_varlen(self) -> (res: bool)
        ensures
            res == (self == SqlType::Varchar),
    {
        matches!(self, SqlType::Varchar)
    }
}

} // verus!
