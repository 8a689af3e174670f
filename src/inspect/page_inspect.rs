//! A heap page's header together with its line-pointer array.
use vstd::prelude::*;
use vstd::slice::slice_subrange;

use crate::framing::{le_u16_at, le_u32_at, read_u16, read_u32};
use crate::inspect::page::{item_id_of, max_offset_number, parse_line_pointer, ItemId, PageError};
use crate::inspect::pg_lsn::PageXLogRecPtr;

pub use crate::inspect::page::{PD_ALL_VISIBLE, PD_HAS_FREE_LINES, PD_PAGE_FULL, PD_VALID_FLAG_BITS};

verus! {

pub type ItemIdData = ItemId;

#[derive(Clone, Debug, PartialEq, Eq)]
pub struct PageHeaderData {
    pub pd_lsn: PageXLogRecPtr,
    pub pd_checksum: u16,
    /// flag bits
    pub pd_flags: u16,
    /// offset to the start of free space
    pub pd_lower: u16,
    /// offset to the end of free space
    pub pd_upper: u16,
    /// offset to the start of the special space
    pub pd_special: u16,
    /// page size (high byte) and layout version (low byte)
    pub pd_pagesize_version: u16,
    /// oldest prunable transaction, or zero
    pub pd_prune_xid: u32,
    /// the line-pointer array
    pub pd_linp: Vec<ItemIdData>,
}

/// A decoded page: its header with the line-pointer array.
#[derive(Clone, Debug, PartialEq, Eq)]
pub struct PageData {
    pub page_header_data: PageHeaderData,
}

/// Number of line pointers of a page whose `pd_lower` is `pd_lower`:
/// `(pd_lower - 24) / 4`, or zero when `pd_lower` is at most 24.
pub fn page_get_max_offset_number(pd_lower: u16) -> (r: usize)
    ensures
        r == max_offset_number(pd_lower),
{
    let lower = pd_lower as usize;
    if lower <= 24 {
        return 0;
    }
    (lower - 24) / 4
}

/// Decodes a heap page header at the front of `i`, then the line pointers
/// that its `pd_lower` announces.
pub fn parse_page_header(i: &[u8]) -> (r: Result<(&[u8], PageHeaderData), PageError>)
    ensures
        i@.len() < 24 ==> r matches Err(PageError::Incomplete(_)),
        i@.len() >= 24 && i@.len() < 24 + 4 * max_offset_number(le_u16_at(i@, 12)) ==> r matches Err(
            PageError::Incomplete(_),
        ),
        i@.len() >= 24 + 4 * max_offset_number(le_u16_at(i@, 12)) ==> (r matches Ok((rest, h)) && {
            let nlp = max_offset_number(le_u16_at(i@, 12));
            &&& h.pd_lsn.xlogid == le_u32_at(i@, 0)
            &&& h.pd_lsn.xrecoff == le_u32_at(i@, 4)
            &&& h.pd_checksum == le_u16_at(i@, 8)
            &&& h.pd_flags == le_u16_at(i@, 10)
            &&& h.pd_lower == le_u16_at(i@, 12)
            &&& h.pd_upper == le_u16_at(i@, 14)
            &&& h.pd_special == le_u16_at(i@, 16)
            &&& h.pd_pagesize_version == le_u16_at(i@, 18)
            &&& h.pd_prune_xid == le_u32_at(i@, 20)
            &&& h.pd_linp@.len() == nlp
            &&& forall|k: int|
                0 <= k < nlp ==> #[trigger] h.pd_linp@[k] == item_id_of(le_u32_at(i@, 24 + 4 * k))
            &&& rest@ == i@.subrange(24 + 4 * nlp, i@.len() as int)
        }),
{
    let n = i.len();
    if n < 24 {
        return Err(PageError::Incomplete(24 - n));
    }
    let pd_lower = read_u16(i, 12);
    let nlp = page_get_max_offset_number(pd_lower);
    if (n - 24) / 4 < nlp {
        return Err(PageError::Incomplete(24 + 4 * nlp - n));
    }
    let mut pd_linp: Vec<ItemIdData> = Vec::new();
    let mut k: usize = 0;
    while k < nlp
        invariant
            n == i@.len(),
            nlp == max_offset_number(pd_lower),
            24 + 4 * nlp <= n,
            k <= nlp,
            pd_linp@.len() == k,
            forall|j: int| 0 <= j < k ==> #[trigger] pd_linp@[j] == item_id_of(le_u32_at(i@, 24 + 4 * j)),
        decreases nlp - k,
    {
        let start = 24 + 4 * k;
        let (_, lp) = match parse_line_pointer(slice_subrange(i, start, n)) {
            Ok(v) => v,
            Err(e) => return Err(e),
        };
        proof {
            let s = i@.subrange(start as int, n as int);
            assert(le_u32_at(s, 0) == le_u32_at(i@, start as int));
        }
        pd_linp.push(lp);
        k = k + 1;
    }
    let header = PageHeaderData {
        pd_lsn: PageXLogRecPtr { xlogid: read_u32(i, 0), xrecoff: read_u32(i, 4) },
        pd_checksum: read_u16(i, 8),
        pd_flags: read_u16(i, 10),
        pd_lower,
        pd_upper: read_u16(i, 14),
        pd_special: read_u16(i, 16),
        pd_pagesize_version: read_u16(i, 18),
        pd_prune_xid: read_u32(i, 20),
        pd_linp,
    };
    Ok((slice_subrange(i, 24 + 4 * nlp, n), header))
}

/// Decodes a page at the front of `i`: its header and line pointers, as
/// `parse_page_header` does.
pub fn parse_page(i: &[u8]) -> (r: Result<(&[u8], PageData), PageError>)
    ensures
        r is Ok <==> i@.len() >= 24 + 4 * max_offset_number(le_u16_at(i@, 12)) && i@.len() >= 24,
        r matches Ok((rest, p)) ==> ({
            let nlp = max_offset_number(le_u16_at(i@, 12));
            &&& p.page_header_data.pd_lower == le_u16_at(i@, 12)
            &&& p.page_header_data.pd_linp@.len() == nlp
            &&& forall|k: int|
                0 <= k < nlp ==> #[trigger] p.page_header_data.pd_linp@[k] == item_id_of(
                    le_u32_at(i@, 24 + 4 * k),
                )
            &&& rest@ == i@.subrange(24 + 4 * nlp, i@.len() as int)
        }),
{
    match parse_page_header(i) {
        Ok((rest, page_header_data)) => Ok((rest, PageData { page_header_data })),
        Err(e) => Err(e),
    }
}

} // verus!
