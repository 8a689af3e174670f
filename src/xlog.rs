//! Log positions.
use vstd::prelude::*;

pub use crate::xlog_reader::{parse_filename, XLogFilePos};

verus! {

/// A position in the log (a byte offset into the logical log).
#[derive(Clone, Copy, Debug, PartialEq, Eq, Structural)]
pub struct XLogRecPtr(pub u64);

/// The position `offset` bytes into segment number `segno`.
pub fn xlog_seg_to_recptr(segno: u64, wal_seg_size: u64, offset: u64) -> (r: XLogRecPtr)
    requires
        segno * wal_seg_size + offset <= u64::MAX,
    ensures
        r.0 == segno * wal_seg_size + offset,
{
    proof {
        vstd::arithmetic::mul::lemma_mul_nonnegative(segno as int, wal_seg_size as int);
    }
    XLogRecPtr(segno * wal_seg_size + offset)
}

} // verus!
