use vstd::prelude::*;

verus! {

/// A machine index as a mathematical integer.
pub open spec fn index_of(i: usize) -> int {
    i as int
}

} // verus!
