use vstd::prelude::*;
use crate::catalog::error::TableId;
use crate::catalog::schema::Schema;
use crate::query::binder::expression::BoundExpression;
use crate::query::table_ref::JoinType;

verus! {

/// A FROM clause whose tables have been found in the catalog.
#[derive(Debug)]
pub enum BoundTableRef {
    BaseTable(BoundBaseTableRef),
    Join(BoundJoin),
    ExprList(BoundExpressionListRef),
}

/// A table of the catalog under the name the query gives it, e.g. `y` in
/// `SELECT x FROM y`.
#[derive(Debug)]
pub struct BoundBaseTableRef {
    pub table_name: String,
    pub table_oid: TableId,
    pub alias: Option<String>,
    pub schema: Schema,
}

impl BoundBaseTableRef {
    pub fn new(table_name: String, table_oid: TableId, alias: Option<String>, schema: Schema) -> (res: Self)
        ensures
            res == (BoundBaseTableRef { table_name, table_oid, alias, schema }),
    {
        BoundBaseTableRef { table_name, table_oid, alias, schema }
    }

    pub fn tbl_name(&self) -> (res: &str)
        ensures
            res@ == self.table_name@,
    {
        self.table_name.as_str()
    }

    pub fn tbl_oid(&self) -> (res: TableId)
        ensures
            res == self.table_oid,
    {
        self.table_oid
    }

    /// The name the query refers to the table by: its alias if it has one.
    pub fn bound_tbl_name(&self) -> (res: &str)
        ensures
            res@ == bound_name(*self)@,
    {
        match &self.alias {
            Some(a) => a.as_str(),
            None => self.table_name.as_str(),
        }
    }

    pub fn schema(&self) -> (res: &Schema)
        ensures
            res == &self.schema,
    {
        &self.schema
    }
}

pub open spec fn bound_name(t: BoundBaseTableRef) -> String {
    match t.alias {
        Some(a) => a,
        None => t.table_name,
    }
}

#[derive(Debug)]
pub struct BoundJoin {
    pub left: Box<BoundTableRef>,
    pub right: Box<BoundTableRef>,
    pub join_type: JoinType,
    pub condition: Option<BoundExpression>,
}

impl BoundJoin {
    pub fn new(left: BoundTableRef, right: BoundTableRef, join_type: JoinType, condition: Option<BoundExpression>) -> (res: Self)
        ensures
            *res.left == left,
            *res.right == right,
            res.join_type == join_type,
            res.condition == condition,
    {
        BoundJoin { left: Box::new(left), right: Box::new(right), join_type, condition }
    }
}

/// The rows of a VALUES list.
#[derive(Debug)]
pub struct BoundExpressionListRef {
    /// a name for this values list
    pub identifier: String,
    pub values: Vec<Vec<BoundExpression>>,
}

impl BoundExpressionListRef {
    pub fn new(identifier: String, values: Vec<Vec<BoundExpression>>) -> (res: Self)
        ensures
            res == (BoundExpressionListRef { identifier, values }),
    {
        BoundExpressionListRef { identifier, values }
    }
}

/// The base tables of a FROM clause, left to right.
pub open spec fn base_tables_of(t: BoundTableRef) -> Seq<BoundBaseTableRef>
    decreases t,
{
    match t {
        BoundTableRef::BaseTable(b) => seq![b],
        BoundTableRef::Join(j) => base_tables_of(*j.left) + base_tables_of(*j.right),
        BoundTableRef::ExprList(_) => Seq::empty(),
    }
}

impl BoundTableRef {
    /// The base tables of this FROM clause, left to right.
    pub fn base_tables(&self) -> (res: Vec<&BoundBaseTableRef>)
        ensures
            res@.len() == base_tables_of(*self).len(),
            forall|i: int| 0 <= i < res@.len() ==> *#[trigger] res@[i] == base_tables_of(*self)[i],
        decreases self,
    {
        match self {
            BoundTableRef::BaseTable(b) => {
                let mut v: Vec<&BoundBaseTableRef> = Vec::new();
                v.push(b);
                v
            },
            BoundTableRef::Join(j) => {
                let mut v = j.left.base_tables();
                let r = j.right.base_tables();
                let ghost n = v@.len();
                let mut i: usize = 0;
                while i < r.len()
                    invariant
                        i <= r@.len(),
                        v@.len() == n + i,
                        n == base_tables_of(*j.left).len(),
                        r@.len() == base_tables_of(*j.right).len(),
                        forall|k: int| 0 <= k < n ==> *#[trigger] v@[k] == base_tables_of(*j.left)[k],
                        forall|k: int| 0 <= k < r@.len() ==> *#[trigger] r@[k] == base_tables_of(*j.right)[k],
                        forall|k: int| n <= k < n + i ==> *#[trigger] v@[k] == base_tables_of(*j.right)[k - n],
                    decreases r@.len() - i,
                {
                    v.push(r[i]);
                    i = i + 1;
                }
                v
            },
            BoundTableRef::ExprList(_) => Vec::new(),
        }
    }
}

} // verus!
