//! The range of the samples of a grid.

use vstd::prelude::*;
use crate::grid::{ElevationGrid, GridError, GridModel};

verus! {

/// The least and the greatest sample of a grid, in millionths.
#[derive(Debug, Clone, Copy, PartialEq, Eq, Structural)]
pub struct ValueRange {
    pub min: i64,
    pub max: i64,
}

/// Cell `i` holds a sample rather than the sentinel.
pub open spec fn is_sample(g: GridModel, i: int) -> bool {
    0 <= i < g.cells.len() && g.cells[i] != g.no_data
}

/// Some cell holds a sample.
pub open spec fn has_samples(g: GridModel) -> bool {
    exists|i: int| is_sample(g, i)
}

/// `r` spans the samples of `g`: both ends are samples, and every sample
/// lies between them.
pub open spec fn is_range_of(g: GridModel, r: ValueRange) -> bool {
    &&& exists|i: int| is_sample(g, i) && g.cells[i] == r.min
    &&& exists|j: int| is_sample(g, j) && g.cells[j] == r.max
    &&& forall|k: int| is_sample(g, k) ==> r.min <= #[trigger] g.cells[k] <= r.max
}

/// A grid has at most one range.
pub proof fn lemma_range_unique(g: GridModel, r: ValueRange, s: ValueRange)
    requires
        is_range_of(g, r),
        is_range_of(g, s),
    ensures
        r == s,
{
    let i = choose|i: int| is_sample(g, i) && g.cells[i] == r.min;
    let j = choose|j: int| is_sample(g, j) && g.cells[j] == s.min;
    let k = choose|k: int| is_sample(g, k) && g.cells[k] == r.max;
    let l = choose|l: int| is_sample(g, l) && g.cells[l] == s.max;
    assert(s.min <= g.cells[i]);
    assert(r.min <= g.cells[j]);
    assert(g.cells[k] <= s.max);
    assert(g.cells[l] <= r.max);
}

/// The range of the samples in one pass; an error where there are none.
pub fn value_range(grid: &ElevationGrid) -> (r: Result<ValueRange, GridError>)
    ensures
        match r {
            Ok(v) => is_range_of(grid@, v),
            Err(e) => e == GridError::EmptyRange && !has_samples(grid@),
        },
{
    let ghost g = grid@;
    let mut found = false;
    let mut lo: i64 = 0;
    let mut hi: i64 = 0;
    let mut i: usize = 0;
    while i < grid.cells.len()
        invariant
            g == grid@,
            i <= grid.cells.len(),
            !found ==> forall|k: int| 0 <= k < i ==> !is_sample(g, k),
            found ==> exists|k: int| 0 <= k < i && is_sample(g, k) && g.cells[k] == lo,
            found ==> exists|k: int| 0 <= k < i && is_sample(g, k) && g.cells[k] == hi,
            found ==> forall|k: int| 0 <= k < i && is_sample(g, k) ==> lo <= #[trigger] g.cells[k]
                <= hi,
        decreases grid.cells.len() - i,
    {
        let v = grid.cells[i];
        if v != grid.no_data {
            if !found {
                found = true;
                lo = v;
                hi = v;
            } else {
                if v < lo {
                    lo = v;
                }
                if v > hi {
                    hi = v;
                }
            }
            assert(is_sample(g, i as int));
        }
        i = i + 1;
    }
    if found {
        Ok(ValueRange { min: lo, max: hi })
    } else {
        Err(GridError::EmptyRange)
    }
}

} // verus!
