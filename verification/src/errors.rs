//! Error taxonomy of the analyzer. Every error is fatal at the driver
//! level: no event is partially applied.

use vstd::prelude::*;

verus! {

/// The reasons a dump replay or a fragmentation query can fail.
#[derive(Debug, PartialEq)]
pub enum FragViewError {
    /// Extent start offset precedes the owning block group's start:
    /// `BeforeStart(extent_start, bg_start)`.
    BeforeStart(u64, u64),
    /// Extent end passes the owning block group's end:
    /// `PastEnd(extent_end, bg_end)`. Either value is clamped to
    /// `u64::MAX` where the true end does not fit in 64 bits.
    PastEnd(u64, u64),
    /// No block group starts at or before the extent offset:
    /// `MissingBg(extent_offset)`.
    MissingBg(u64),
    /// Delete of an extent that is not in its block group:
    /// `MissingExtent(extent_offset, bg_start)`.
    MissingExtent(u64, u64),
    /// A dump line does not follow the grammar; carries the offending
    /// token (or the whole line, when a token is missing).
    Parse(String),
    /// The free-space sweep found more free bytes than the block group
    /// holds: `TooMuchFree(total_free, bg_len)`.
    TooMuchFree(u64, u64),
}

} // verus!
