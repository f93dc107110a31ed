//! In-loop post-reconstruction filtering for an AV1 decoder: the deblocking
//! loop filter and the constrained directional enhancement filter (CDEF),
//! together with the line-backup buffers that resolve cross-row data
//! dependencies and the precomputed wedge / inter-intra mask tables.
//!
//! Every pixel transformation is stated as a contract over a mathematical
//! model of the planes and proved against it.

pub mod cdef_apply;
pub mod levels;
pub mod loopfilter;
pub mod lut;
pub mod plane;
pub mod wedge;

use vstd::prelude::*;

verus! {

/// Clamp `v` into `[lo, hi]`.
pub open spec fn spec_iclip(v: int, lo: int, hi: int) -> int {
    if v < lo {
        lo
    } else if v > hi {
        hi
    } else {
        v
    }
}

/// Clamp a signed value into `[lo, hi]`.
pub fn iclip(v: i32, lo: i32, hi: i32) -> (r: i32)
    requires
        lo <= hi,
    ensures
        r == spec_iclip(v as int, lo as int, hi as int),
{
    if v < lo {
        lo
    } else if v > hi {
        hi
    } else {
        v
    }
}

} // verus!
