//! Ranges of indices, as callers name the part of a view that they want.

use vstd::prelude::*;

verus! {

/// One end of a range of indices.
#[derive(Clone, Copy, Debug)]
pub enum Bound {
    /// The range goes as far as the view does.
    Unbounded,
    /// The range ends at this index and holds it.
    Included(usize),
    /// The range ends at this index and does not hold it.
    Excluded(usize),
}

/// Where a range with the lower bound `lower` starts in a view that starts
/// at `start`, as an index of the buffer.
pub open spec fn resolve_lower(lower: Bound, start: int) -> int {
    match lower {
        Bound::Unbounded => start,
        Bound::Included(index) => start + index,
        Bound::Excluded(index) => start + index + 1,
    }
}

/// Where a range with the upper bound `upper` ends in a view of
/// `start .. end`, as an index of the buffer.
pub open spec fn resolve_upper(upper: Bound, start: int, end: int) -> int {
    match upper {
        Bound::Unbounded => end,
        Bound::Included(index) => start + index + 1,
        Bound::Excluded(index) => start + index,
    }
}

/// Whether a view of `start .. end` can be narrowed to the range from
/// `lower` to `upper`: the lower bound is not exclusive, and the range is
/// not inverted and stays within the view.
pub open spec fn range_fits(lower: Bound, upper: Bound, start: int, end: int) -> bool {
    &&& !(lower is Excluded)
    &&& resolve_lower(lower, start) <= resolve_upper(upper, start, end)
    &&& resolve_upper(upper, start, end) <= end
}

/// Decides `range_fits` for a view of `start .. end`.
pub fn range_fits_in(lower: Bound, upper: Bound, start: usize, end: usize) -> (fits: bool)
    requires
        start <= end,
    ensures
        fits == range_fits(lower, upper, start as int, end as int),
{
    let length = end - start;
    let first = match lower {
        Bound::Unbounded => 0,
        Bound::Included(index) => index,
        Bound::Excluded(_) => {
            return false;
        },
    };
    match upper {
        Bound::Unbounded => first <= length,
        Bound::Included(index) => index < length && first <= index + 1,
        Bound::Excluded(index) => index <= length && first <= index,
    }
}

} // verus!
