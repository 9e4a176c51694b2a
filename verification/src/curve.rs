//! The coordinate mapper: a linear block index is projected to a 2D pixel
//! coordinate along a Hilbert space-filling curve, so that runs of
//! contiguous blocks stay visually contiguous on the raster.

use vstd::prelude::*;

verus! {

/// The point of the 2D Hilbert curve at distance `h`: the pair returned by
/// `fast_hilbert::h2xy` for that index.
pub uninterp spec fn hilbert_point(h: u64) -> (u32, u32);

/// Relies on `fast_hilbert::h2xy`: the inverse Hilbert-curve mapping
/// (distance to point) at a fixed even order; the coordinates depend on
/// the index alone.
#[verifier::external_body]
pub(crate) fn hilbert_coords(h: u64) -> (r: (u32, u32))
    ensures
        r == hilbert_point(h),
{
    fast_hilbert::h2xy::<u32>(h, 10)
}

/// Map a block index (relative to its block group) to a pixel coordinate.
/// The canvas side is fixed, so the dimension argument does not influence
/// the mapping.
pub fn bg_block_to_coord(_dim: u32, block_offset: u64) -> (r: (u32, u32))
    ensures
        r == hilbert_point(block_offset),
{
    hilbert_coords(block_offset)
}

} // verus!
