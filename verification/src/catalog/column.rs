use vstd::prelude::*;
use crate::catalog::types::{SqlType, spec_inline_size};

verus! {

/// Bytes taken in the fixed-length part of a tuple by the offset of a
/// variable-length value.
pub const VAR_OFFSET_SIZE: usize = 4;

#[derive(Debug, PartialEq, Eq)]
pub enum ColumnSize {
    Inline(usize),
    Variable(usize),
}

#[derive(Debug, PartialEq, Eq)]
pub struct Column {
    pub name: String,
    pub sql_type: SqlType,
    /// offset within the tuple of the data of this column
    pub value_offset: usize,
    pub size: ColumnSize,
}

impl Clone for ColumnSize {
    fn clone(&self) -> (res: Self)
        ensures
            res == *self,
    {
        match self {
            ColumnSize::Inline(s) => ColumnSize::Inline(*s),
            ColumnSize::Variable(s) => ColumnSize::Variable(*s),
        }
    }
}

impl Clone for Column {
    fn clone(&self) -> (res: Self)
        ensures
            res == *self,
    {
        Column {
            name: self.name.clone(),
            sql_type: self.sql_type,
            value_offset: self.value_offset,
            size: self.size.clone(),
        }
    }
}

/// Bytes that a column takes in the fixed-length part of a tuple.
pub open spec fn column_inline_size(c: Column) -> nat {
    match c.size {
        ColumnSize::Inline(s) => s as nat,
        ColumnSize::Variable(_) => VAR_OFFSET_SIZE as nat,
    }
}

/// The size a column was declared with: its inline size, or the maximum
/// length of a VARCHAR.
pub open spec fn column_declared_size(c: Column) -> nat {
    match c.size {
        ColumnSize::Inline(s) => s as nat,
        ColumnSize::Variable(s) => s as nat,
    }
}

/// A column as the constructors make it: fixed-size types have their inline
/// size, VARCHAR a declared maximum length.
pub open spec fn column_well_formed(c: Column) -> bool {
    match c.size {
        ColumnSize::Inline(s) => c.sql_type != SqlType::Varchar && s == spec_inline_size(c.sql_type),
        ColumnSize::Variable(_) => c.sql_type == SqlType::Varchar,
    }
}

impl Column {
    /// A column of a fixed-size type.
    pub fn new_static(name: String, sql_type: SqlType) -> (res: Self)
        requires
            sql_type != SqlType::Varchar,
        ensures
            res == (Column {
                name,
                sql_type,
                value_offset: 0,
                size: ColumnSize::Inline(spec_inline_size(sql_type) as usize),
            }),
            column_well_formed(res),
    {
        Column { name, sql_type, value_offset: 0, size: ColumnSize::Inline(sql_type.inline_size()) }
    }

    /// A VARCHAR column of at most `size` characters.
    pub fn new_variable(name: String, sql_type: SqlType, size: usize) -> (res: Self)
        requires
            sql_type == SqlType::Varchar,
        ensures
            res == (Column { name, sql_type, value_offset: 0, size: ColumnSize::Variable(size) }),
            column_well_formed(res),
    {
        Column { name, sql_type, value_offset: 0, size: ColumnSize::Variable(size) }
    }

    /// The same column under another name.
    pub fn with_new_name(&self, name: String) -> (res: Self)
        ensures
            res == (Column { name, ..*self }),
    {
        Column { name, sql_type: self.sql_type, value_offset: self.value_offset, size: self.size.clone() }
    }

    pub fn sql_type(&self) -> (res: SqlType)
        ensures
            res == self.sql_type,
    {
        self.sql_type
    }

    pub fn name(&self) -> (res: &str)
        ensures
            res@ == self.name@,
    {
        self.name.as_str()
    }

    /// Size required to store the inlined part of this column.
    pub fn inline_size(&self) -> (res: usize)
        ensures
            res == column_inline_size(*self),
    {
        match self.size {
            ColumnSize::Inline(s) => s,
            ColumnSize::Variable(_) => VAR_OFFSET_SIZE,
        }
    }

    pub fn declared_size(&self) -> (res: usize)
        ensures
            res == column_declared_size(*self),
    {
        match self.size {
            ColumnSize::Inline(s) => s,
            ColumnSize::Variable(s) => s,
        }
    }

    pub fn is_inlined(&self) -> (res: bool)
        ensures
            res == (self.sql_type != SqlType::Varchar),
    {
        self.sql_type.is_inlined()
    }
}

} // verus!
