use vstd::prelude::*;
use crate::common::strings::{concat3, lowercase, str_eq, to_lowercase};
use crate::query::expression::{BinaryOperator, UnaryOperator};
use crate::types::value::Value;

verus! {

/// A column reference resolved against the tables in scope.
#[derive(Debug, PartialEq)]
pub enum ColumnRef {
    Unqualified { column: String },
    TableQualified { table: String, column: String },
    SchemaTableQualified { schema: String, table: String, column: String },
}

/// The text of a column reference: its parts joined by dots.
pub open spec fn column_ref_text(c: ColumnRef) -> Seq<char> {
    match c {
        ColumnRef::Unqualified { column } => column@,
        ColumnRef::TableQualified { table, column } => table@ + seq!['.'] + column@,
        ColumnRef::SchemaTableQualified { schema, table, column } => schema@ + seq!['.'] + table@ + seq!['.'] + column@,
    }
}

impl ColumnRef {
    pub fn to_str(&self) -> (res: String)
        ensures
            res@ == column_ref_text(*self),
    {
        proof { reveal_strlit("."); }
        match self {
            ColumnRef::Unqualified { column } => column.clone(),
            ColumnRef::TableQualified { table, column } => concat3(table.as_str(), ".", column.as_str()),
            ColumnRef::SchemaTableQualified { schema, table, column } => {
                let st = concat3(schema.as_str(), ".", table.as_str());
                concat3(st.as_str(), ".", column.as_str())
            },
        }
    }
}

/// An expression whose column references have been resolved.
#[derive(Debug, PartialEq)]
pub enum BoundExpression {
    Literal(Value),
    Column(ColumnRef),
    BinaryOp { left: Box<BoundExpression>, op: BinaryOperator, right: Box<BoundExpression> },
    UnaryOp { expr: Box<BoundExpression>, op: UnaryOperator },
}

/// No two references have the same text, ignoring case.
pub open spec fn refs_unique(refs: Seq<ColumnRef>) -> bool {
    forall|i: int, j: int| 0 <= i < j < refs.len() ==>
        lowercase(column_ref_text(#[trigger] refs[i])) != lowercase(column_ref_text(#[trigger] refs[j]))
}

/// Whether no two column references name the same column, ignoring case.
pub fn are_column_refs_unique(column_refs: &[ColumnRef]) -> (res: bool)
    ensures
        res == refs_unique(column_refs@),
{
    let mut seen: Vec<String> = Vec::new();
    let mut i: usize = 0;
    while i < column_refs.len()
        invariant
            i <= column_refs@.len(),
            seen@.len() == i,
            forall|k: int| 0 <= k < i ==> (#[trigger] seen@[k])@ == lowercase(column_ref_text(column_refs@[k])),
            refs_unique(column_refs@.subrange(0, i as int)),
        decreases column_refs@.len() - i,
    {
        let text = column_refs[i].to_str();
        let key = to_lowercase(text.as_str());
        let mut j: usize = 0;
        while j < seen.len()
            invariant
                j <= seen@.len(),
                seen@.len() == i,
                i < column_refs@.len(),
                key@ == lowercase(column_ref_text(column_refs@[i as int])),
                forall|k: int| 0 <= k < i ==> (#[trigger] seen@[k])@ == lowercase(column_ref_text(column_refs@[k])),
                forall|k: int| 0 <= k < j ==> (#[trigger] seen@[k])@ != key@,
            decreases seen@.len() - j,
        {
            if str_eq(seen[j].as_str(), key.as_str()) {
                proof {
                    assert(lowercase(column_ref_text(column_refs@[j as int])) == lowercase(column_ref_text(column_refs@[i as int])));
                }
                return false;
            }
            j = j + 1;
        }
        seen.push(key);
        proof {
            let s = column_refs@.subrange(0, i + 1);
            assert forall|a: int, b: int| 0 <= a < b < s.len() implies
                lowercase(column_ref_text(#[trigger] s[a])) != lowercase(column_ref_text(#[trigger] s[b])) by {
                if b < i {
                    assert(column_refs@.subrange(0, i as int)[a] == s[a]);
                    assert(column_refs@.subrange(0, i as int)[b] == s[b]);
                } else {
                    assert(seen@[a]@ != key@);
                }
            }
        }
        i = i + 1;
    }
    assert(column_refs@.subrange(0, column_refs@.len() as int) =~= column_refs@);
    true
}

} // verus!
