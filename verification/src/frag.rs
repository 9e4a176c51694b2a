//! Per-block-group free-space bookkeeping: total free bytes, the largest
//! free run, and the derived fragmentation ratio.

use vstd::prelude::*;
use crate::errors::FragViewError;

verus! {

/// The free-space summary of one block group. The fragmentation
/// percentage derived from it is `0` when `total_free` is `0`, else
/// `100 * (1 - max_free / total_free)`: `0` means all free space sits in
/// one contiguous run.
#[derive(Debug, Clone, Copy, PartialEq, Eq, Structural)]
pub struct BlockGroupFragmentation {
    /// The block group's length in bytes.
    pub len: u64,
    /// Sum of all free runs found by the sweep.
    pub total_free: u64,
    /// The largest single free run.
    pub max_free: u64,
}

impl BlockGroupFragmentation {
    /// An empty summary for a block group of the given length.
    pub fn new(len: u64) -> (r: Self)
        ensures
            r.len == len,
            r.total_free == 0,
            r.max_free == 0,
    {
        Self { len: len, total_free: 0, max_free: 0 }
    }

    /// Account one free run. The running total is bumped first; if it
    /// then exceeds the block group's length the sweep has found more
    /// free space than the group holds, which is a hard error, and the
    /// largest-run record is left alone.
    pub fn add_free(&mut self, len: u64) -> (r: Result<(), FragViewError>)
        requires
            old(self).total_free + len <= u64::MAX,
        ensures
            final(self).len == old(self).len,
            final(self).total_free == old(self).total_free + len,
            match r {
                Ok(_) => old(self).total_free + len <= old(self).len && final(self).max_free
                    == (if len > old(self).max_free {
                    len
                } else {
                    old(self).max_free
                }),
                Err(e) => old(self).total_free + len > old(self).len && final(self).max_free
                    == old(self).max_free && e == FragViewError::TooMuchFree(
                    (old(self).total_free + len) as u64,
                    old(self).len,
                ),
            },
    {
        self.total_free = self.total_free + len;
        if self.total_free > self.len {
            return Err(FragViewError::TooMuchFree(self.total_free, self.len));
        }
        if len > self.max_free {
            self.max_free = len;
        }
        Ok(())
    }

    /// Whether the derived fragmentation percentage is positive: there is
    /// free space and it does not all sit in one run.
    pub fn is_fragmented(&self) -> (r: bool)
        ensures
            r == (self.total_free > 0 && self.max_free < self.total_free),
    {
        self.total_free > 0 && self.max_free < self.total_free
    }
}

} // verus!
