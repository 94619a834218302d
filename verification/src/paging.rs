//! Which page holds a row.

use vstd::prelude::*;

verus! {

/// `starts[p]` is the first row of page `p`; the last entry is the row count.
pub open spec fn page_bounds(starts: Seq<u32>) -> bool {
    &&& starts.len() >= 2
    &&& starts[0] == 0
    &&& forall|i: int, j: int|
        0 <= i <= j < starts.len() ==> #[trigger] starts[i] <= #[trigger] starts[j]
}

/// The page that holds row `idx`.
pub fn page_holding(starts: &Vec<u32>, idx: u32) -> (p: usize)
    requires
        page_bounds(starts@),
        idx < starts@.last(),
    ensures
        p + 1 < starts@.len(),
        starts@[p as int] <= idx < starts@[p + 1],
{
    let mut lo: usize = 0;
    let mut hi: usize = starts.len() - 1;
    while hi - lo > 1
        invariant
            page_bounds(starts@),
            lo < hi < starts@.len(),
            starts@[lo as int] <= idx < starts@[hi as int],
        decreases hi - lo,
    {
        let mid: usize = lo + (hi - lo) / 2;
        if starts[mid] <= idx {
            lo = mid;
        } else {
            hi = mid;
        }
    }
    lo
}

} // verus!
