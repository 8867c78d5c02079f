use vstd::prelude::*;
use crate::catalog::column::{Column, column_inline_size, column_well_formed};
use crate::catalog::types::SqlType;

verus! {

/// Bytes of the null bitmap that heads a tuple with `n` columns.
pub open spec fn null_bitmap_bytes(n: nat) -> nat {
    (n + 7) / 8
}

/// Bytes taken by the inline parts of the first `n` columns.
pub open spec fn inline_prefix(cols: Seq<Column>, n: int) -> nat
    decreases n,
{
    if n <= 0 {
        0
    } else {
        inline_prefix(cols, n - 1) + column_inline_size(cols[n - 1])
    }
}

/// The indices, in order, of the columns among the first `n` that are not
/// inlined (VARCHAR).
pub open spec fn uninlined_prefix(cols: Seq<Column>, n: int) -> Seq<usize>
    decreases n,
{
    if n <= 0 {
        Seq::empty()
    } else if cols[n - 1].sql_type == SqlType::Varchar {
        uninlined_prefix(cols, n - 1).push((n - 1) as usize)
    } else {
        uninlined_prefix(cols, n - 1)
    }
}

/// The column `c` placed at byte offset `off` of the tuple.
pub open spec fn placed(c: Column, off: nat) -> Column {
    Column { value_offset: off as usize, ..c }
}

/// A schema laid out from `cols`: after the null bitmap, each column follows
/// the inline part of the one before it.
pub open spec fn laid_out(cols: Seq<Column>, s: Schema) -> bool {
    let base = null_bitmap_bytes(cols.len());
    &&& s.columns@.len() == cols.len()
    &&& forall|i: int| 0 <= i < cols.len() ==>
        #[trigger] s.columns@[i] == placed(cols[i], base + inline_prefix(cols, i))
    &&& s.inlined_storage_size == base + inline_prefix(cols, cols.len() as int)
    &&& s.uninlined_columns@ == uninlined_prefix(cols, cols.len() as int)
}

/// Columns of the same types and sizes take the same room and leave the
/// same columns out of line.
pub proof fn lemma_same_shape_prefixes(a: Seq<Column>, b: Seq<Column>, n: int)
    requires
        a.len() == b.len(),
        0 <= n <= a.len(),
        forall|i: int| 0 <= i < a.len() ==> (#[trigger] a[i]).sql_type == b[i].sql_type && a[i].size == b[i].size,
    ensures
        inline_prefix(a, n) == inline_prefix(b, n),
        uninlined_prefix(a, n) == uninlined_prefix(b, n),
    decreases n,
{
    if n > 0 {
        lemma_same_shape_prefixes(a, b, n - 1);
        assert(a[n - 1].sql_type == b[n - 1].sql_type && a[n - 1].size == b[n - 1].size);
    }
}

/// A laid-out schema is laid out from its own columns: laying them out
/// again gives the same offsets, size and out-of-line columns.
pub proof fn lemma_laid_out_again(cols: Seq<Column>, s: Schema)
    requires
        laid_out(cols, s),
    ensures
        laid_out(s.columns@, s),
{
    let sc = s.columns@;
    assert forall|i: int| 0 <= i < sc.len() implies (#[trigger] sc[i]).sql_type == cols[i].sql_type && sc[i].size == cols[i].size by {
        assert(sc[i] == placed(cols[i], null_bitmap_bytes(cols.len()) + inline_prefix(cols, i)));
    }
    lemma_same_shape_prefixes(sc, cols, sc.len() as int);
    assert forall|i: int| 0 <= i < sc.len() implies #[trigger] sc[i] == placed(sc[i], null_bitmap_bytes(sc.len()) + inline_prefix(sc, i)) by {
        lemma_same_shape_prefixes(sc, cols, i);
        assert(sc[i] == placed(cols[i], null_bitmap_bytes(cols.len()) + inline_prefix(cols, i)));
    }
}

/// A column list short enough for its layout to fit in a `usize` (any slice
/// of columns that fits in memory is).
pub open spec fn columns_fit(n: nat) -> bool {
    n <= usize::MAX / 16
}

/// Columns as the constructors of `Column` make them.
pub open spec fn all_well_formed(cols: Seq<Column>) -> bool {
    forall|i: int| 0 <= i < cols.len() ==> column_well_formed(#[trigger] cols[i])
}

/// What a schema holds: its fixed-length size, its columns and the indices
/// of its VARCHAR columns.
pub struct SchemaView {
    pub inlined_storage_size: nat,
    pub columns: Seq<Column>,
    pub uninlined_columns: Seq<usize>,
}

impl View for Schema {
    type V = SchemaView;

    open spec fn view(&self) -> SchemaView {
        SchemaView {
            inlined_storage_size: self.inlined_storage_size as nat,
            columns: self.columns@,
            uninlined_columns: self.uninlined_columns@,
        }
    }
}

#[derive(Debug, PartialEq)]
pub struct Schema {
    /// number of bytes occupied by the fixed-length part of a tuple
    pub inlined_storage_size: usize,
    pub columns: Vec<Column>,
    /// indices of the columns that are not inlined
    pub uninlined_columns: Vec<usize>,
}

/// A copy of `v`, element for element.
pub fn clone_columns(v: &[Column]) -> (res: Vec<Column>)
    ensures
        res@ == v@,
{
    let mut res: Vec<Column> = Vec::new();
    let mut i: usize = 0;
    while i < v.len()
        invariant
            i <= v@.len(),
            res@ == v@.subrange(0, i as int),
        decreases v@.len() - i,
    {
        res.push(v[i].clone());
        i = i + 1;
    }
    res
}

/// A copy of `v`.
pub fn clone_usizes(v: &[usize]) -> (res: Vec<usize>)
    ensures
        res@ == v@,
{
    let mut res: Vec<usize> = Vec::new();
    let mut i: usize = 0;
    while i < v.len()
        invariant
            i <= v@.len(),
            res@ == v@.subrange(0, i as int),
        decreases v@.len() - i,
    {
        res.push(v[i]);
        i = i + 1;
    }
    res
}

impl Clone for Schema {
    fn clone(&self) -> (res: Self)
        ensures
            res@ == self@,
    {
        let res = Schema {
            inlined_storage_size: self.inlined_storage_size,
            columns: clone_columns(self.columns.as_slice()),
            uninlined_columns: clone_usizes(self.uninlined_columns.as_slice()),
        };
        assert(res.columns@ =~= self.columns@);
        assert(res.uninlined_columns@ =~= self.uninlined_columns@);
        res
    }
}

impl Schema {
    /// Lays out `columns`: the null bitmap comes first, then the inline part
    /// of each column in order.
    pub fn new(columns: &[Column]) -> (res: Self)
        requires
            columns_fit(columns@.len()),
            all_well_formed(columns@),
        ensures
            laid_out(columns@, res),
    {
        let n = columns.len();
        let base = (n + 7) / 8;
        let mut curr_offset = base;
        let mut processed_columns: Vec<Column> = Vec::with_capacity(n);
        let mut uninlined_columns: Vec<usize> = Vec::new();
        let ghost cols = columns@;
        let mut i: usize = 0;
        while i < n
            invariant
                n == cols.len(),
                columns@ == cols,
                columns_fit(n as nat),
                all_well_formed(cols),
                base == null_bitmap_bytes(n as nat),
                i <= n,
                curr_offset == base + inline_prefix(cols, i as int),
                inline_prefix(cols, i as int) <= 8 * i,
                processed_columns@.len() == i,
                forall|j: int| 0 <= j < i ==>
                    #[trigger] processed_columns@[j] == placed(cols[j], (base + inline_prefix(cols, j)) as nat),
                uninlined_columns@ == uninlined_prefix(cols, i as int),
            decreases n - i,
        {
            let mut col = columns[i].clone();
            if !col.is_inlined() {
                uninlined_columns.push(i);
            }
            col.value_offset = curr_offset;
            let sz = col.inline_size();
            proof {
                assert(column_well_formed(cols[i as int]));
                assert(column_inline_size(cols[i as int]) <= 8);
                assert(inline_prefix(cols, i + 1) == inline_prefix(cols, i as int) + column_inline_size(cols[i as int]));
            }
            curr_offset = curr_offset + sz;
            processed_columns.push(col);
            i = i + 1;
        }
        Schema { inlined_storage_size: curr_offset, columns: processed_columns, uninlined_columns }
    }

    pub fn is_entirely_inlined(&self) -> (res: bool)
        ensures
            res == (self.uninlined_columns@.len() == 0),
    {
        self.uninlined_columns.len() == 0
    }

    pub fn num_columns(&self) -> (res: usize)
        ensures
            res == self.columns@.len(),
    {
        self.columns.len()
    }

    pub fn columns(&self) -> (res: &[Column])
        ensures
            res@ == self.columns@,
    {
        self.columns.as_slice()
    }

    pub fn inlined_storage_size(&self) -> (res: usize)
        ensures
            res == self.inlined_storage_size,
    {
        self.inlined_storage_size
    }

    pub fn uninlined_column_idxs(&self) -> (res: &[usize])
        ensures
            res@ == self.uninlined_columns@,
    {
        self.uninlined_columns.as_slice()
    }
}

} // verus!
