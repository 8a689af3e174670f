//! The 20-byte standard part that begins every WAL page.
use vstd::prelude::*;
use vstd::slice::slice_subrange;

use crate::error::XLogError;
use crate::framing::{le_u16_at, le_u32_at, le_u64_at, read_u16, read_u32, read_u64};

verus! {

/// Magic value of every WAL page header.
pub const XLP_MAGIC: u16 = 0xd10d;

/// Size in bytes of the standard page header.
pub const XLOG_SHORT_PHD_SIZE: usize = 20;

#[derive(Clone, Copy, Debug, PartialEq, Eq)]
pub struct XLogPageHeader {
    pub xlp_magic: u16,
    pub xlp_info: u16,
    pub xlp_tli: u32,
    pub xlp_pageaddr: u64,
    pub xlp_rem_len: u32,
}

/// The standard page header stored in the first 20 bytes of `b`.
pub open spec fn std_header_of(b: Seq<u8>) -> XLogPageHeader {
    XLogPageHeader {
        xlp_magic: le_u16_at(b, 0),
        xlp_info: le_u16_at(b, 2),
        xlp_tli: le_u32_at(b, 4),
        xlp_pageaddr: le_u64_at(b, 8),
        xlp_rem_len: le_u32_at(b, 16),
    }
}

/// Decodes the standard page header at the front of `i`, checking its magic.
pub fn parse_xlog_page_header(i: &[u8]) -> (r: Result<(&[u8], XLogPageHeader), XLogError>)
    ensures
        i@.len() < 20 ==> (r matches Err(XLogError::Incomplete(n)) && n == 20 - i@.len()),
        i@.len() >= 20 && le_u16_at(i@, 0) != XLP_MAGIC ==> r matches Err(
            XLogError::InvalidPageHeader,
        ),
        i@.len() >= 20 && le_u16_at(i@, 0) == XLP_MAGIC ==> (r matches Ok((rest, h)) && h
            == std_header_of(i@) && rest@ == i@.subrange(20, i@.len() as int)),
{
    if i.len() < XLOG_SHORT_PHD_SIZE {
        return Err(XLogError::Incomplete(XLOG_SHORT_PHD_SIZE - i.len()));
    }
    let xlp_magic = read_u16(i, 0);
    if xlp_magic != XLP_MAGIC {
        return Err(XLogError::InvalidPageHeader);
    }
    let header = XLogPageHeader {
        xlp_magic,
        xlp_info: read_u16(i, 2),
        xlp_tli: read_u32(i, 4),
        xlp_pageaddr: read_u64(i, 8),
        xlp_rem_len: read_u32(i, 16),
    };
    Ok((slice_subrange(i, XLOG_SHORT_PHD_SIZE, i.len()), header))
}

} // verus!
