//! Little-endian scalar readers and the zero-padding consumer.
use vstd::prelude::*;
use vstd::slice::slice_subrange;
use vstd::slice::slice_to_vec;

use crate::error::XLogError;

verus! {

/// The little-endian `u16` stored at `b[p..p + 2]`.
pub open spec fn le_u16_at(b: Seq<u8>, p: int) -> u16 {
    (b[p] as int + b[p + 1] as int * 0x100) as u16
}

/// The little-endian `u32` stored at `b[p..p + 4]`.
pub open spec fn le_u32_at(b: Seq<u8>, p: int) -> u32 {
    (b[p] as int + b[p + 1] as int * 0x100 + b[p + 2] as int * 0x1_0000 + b[p + 3] as int
        * 0x100_0000) as u32
}

/// The little-endian `u64` stored at `b[p..p + 8]`.
pub open spec fn le_u64_at(b: Seq<u8>, p: int) -> u64 {
    (le_u32_at(b, p) as int + le_u32_at(b, p + 4) as int * 0x1_0000_0000) as u64
}

/// All bytes of `s` are zero.
pub open spec fn all_zero(s: Seq<u8>) -> bool {
    forall|k: int| 0 <= k < s.len() ==> s[k] == 0
}

/// Number of padding bytes that follow a record of `tot_len` bytes so that the
/// next record begins on an 8-byte boundary.
pub open spec fn record_padding(tot_len: int) -> int {
    if tot_len % 8 == 0 {
        0
    } else {
        8 - tot_len % 8
    }
}

pub fn read_u8(b: &[u8], pos: usize) -> (r: u8)
    requires
        pos < b@.len(),
    ensures
        r == b@[pos as int],
{
    b[pos]
}

pub fn read_u16(b: &[u8], pos: usize) -> (r: u16)
    requires
        pos + 2 <= b@.len(),
    ensures
        r == le_u16_at(b@, pos as int),
{
    let lo = b[pos] as u16;
    let hi = b[pos + 1] as u16;
    lo + hi * 0x100
}

pub fn read_u32(b: &[u8], pos: usize) -> (r: u32)
    requires
        pos + 4 <= b@.len(),
    ensures
        r == le_u32_at(b@, pos as int),
{
    let b0 = b[pos] as u32;
    let b1 = b[pos + 1] as u32;
    let b2 = b[pos + 2] as u32;
    let b3 = b[pos + 3] as u32;
    b0 + b1 * 0x100 + b2 * 0x1_0000 + b3 * 0x100_0000
}

pub fn read_u64(b: &[u8], pos: usize) -> (r: u64)
    requires
        pos + 8 <= b@.len(),
    ensures
        r == le_u64_at(b@, pos as int),
{
    let n = b.len();
    let hi_pos = n - (n - pos - 4);
    let lo = read_u32(b, pos) as u64;
    let hi = read_u32(b, hi_pos) as u64;
    lo + hi * 0x1_0000_0000
}

/// Whether `b[start..end]` holds only zero bytes.
pub fn is_zero_range(b: &[u8], start: usize, end: usize) -> (r: bool)
    requires
        start <= end <= b@.len(),
    ensures
        r == all_zero(b@.subrange(start as int, end as int)),
{
    let mut k = start;
    while k < end
        invariant
            start <= k <= end <= b@.len(),
            all_zero(b@.subrange(start as int, k as int)),
        decreases end - k,
    {
        if b[k] != 0 {
            assert(b@.subrange(start as int, end as int)[k - start] != 0);
            return false;
        }
        k = k + 1;
    }
    true
}

/// Consumes `size` bytes of padding at the front of `i`, all of which must be zero.
pub fn consume_padding(i: &[u8], size: usize) -> (r: Result<&[u8], XLogError>)
    ensures
        size > 8 ==> (r matches Err(XLogError::IncorrectPaddingLength(n)) && n == size),
        size <= 8 && i@.len() < size ==> (r matches Err(XLogError::Incomplete(n)) && n == size
            - i@.len()),
        size <= 8 && i@.len() >= size && !all_zero(i@.subrange(0, size as int)) ==> (r matches Err(
            XLogError::IncorrectPaddingValue(p),
        ) && p@ == i@.subrange(0, size as int)),
        size <= 8 && i@.len() >= size && all_zero(i@.subrange(0, size as int)) ==> (r matches Ok(
            rest,
        ) && rest@ == i@.subrange(size as int, i@.len() as int)),
{
    if size > 8 {
        return Err(XLogError::IncorrectPaddingLength(size));
    }
    if i.len() < size {
        return Err(XLogError::Incomplete(size - i.len()));
    }
    if !is_zero_range(i, 0, size) {
        let padding = slice_to_vec(slice_subrange(i, 0, size));
        return Err(XLogError::IncorrectPaddingValue(padding));
    }
    Ok(slice_subrange(i, size, i.len()))
}

} // verus!
