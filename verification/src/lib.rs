//! Allocation-fragmentation analysis for an extent-based filesystem.
//!
//! The library replays a chronological log of allocation changes (block
//! groups and extents being inserted or deleted) into a two-level model,
//! computes per-block-group free-space fragmentation, and paints each block
//! group's occupancy onto a raster laid out along a Hilbert curve.

use vstd::prelude::*;

pub mod block_group;
pub mod curve;
pub mod decimal;
pub mod errors;
pub mod frag;
pub mod laws;
pub mod parse;
pub mod raster;
pub mod space_info;

verus! {

/// One kibibyte.
pub const K: u64 = 1024;

/// Allocation granularity in bytes: every extent length and block-group
/// length used for visualization is a multiple of this.
pub const BLOCK: u64 = 4 * K;

/// Side length in pixels of every block-group raster.
pub const CANVAS_DIM: u32 = 512;

/// Canvas side used for a block group's raster; fixed regardless of the
/// block group's length.
pub fn bg_dim(_bg_len: u64) -> (d: u32)
    ensures
        d == CANVAS_DIM,
{
    CANVAS_DIM
}

/// Translate a global byte offset into an offset relative to the start of
/// the block group that begins at `bg_start`.
pub fn global_to_bg(bg_start: u64, offset: u64) -> (r: u64)
    requires
        bg_start <= offset,
    ensures
        r == offset - bg_start,
{
    offset - bg_start
}

/// Convert a byte offset into a block index.
pub fn byte_to_block(offset: u64) -> (b: u64)
    ensures
        b == offset as int / BLOCK as int,
{
    offset / BLOCK
}

} // verus!
