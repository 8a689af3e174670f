//! Heap pages: the 24-byte header, the line-pointer array and the tuples.
use vstd::prelude::*;
use vstd::slice::slice_subrange;
use vstd::slice::slice_to_vec;

use crate::framing::{le_u16_at, le_u32_at, le_u64_at, read_u16, read_u32, read_u64, read_u8};
use crate::inspect::tuple::{parse_heap_tuple_header, tuple_fits, tuple_header_matches, HeapTupleHeader};

verus! {

pub type LocationIndex = u16;
pub type TransactionId = u32;

/// Size of a heap page in bytes.
pub const PAGE_SIZE: usize = 8192;
/// Size of the page header.
pub const PAGE_HEADER_MEM_SIZE: usize = 24;
/// Size of a line pointer.
pub const ITEM_ID_DATA_MEM_SIZE: usize = 4;

/// there are unused line pointers
pub const PD_HAS_FREE_LINES: u16 = 0x0001;
/// not enough free space for a new tuple
pub const PD_PAGE_FULL: u16 = 0x0002;
/// all tuples on the page are visible to everyone
pub const PD_ALL_VISIBLE: u16 = 0x0004;
/// all valid flag bits
pub const PD_VALID_FLAG_BITS: u16 = 0x0007;

/// unused line pointer
pub const LP_UNUSED: u8 = 0;
/// line pointer to a tuple
pub const LP_NORMAL: u8 = 1;
/// HOT redirect
pub const LP_REDIRECT: u8 = 2;
/// dead, may or may not have storage
pub const LP_DEAD: u8 = 3;

#[derive(Clone, Copy, Debug, PartialEq, Eq, Structural)]
pub struct PageHeader {
    /// position of the last change to the page
    pub pd_lsn: u64,
    pub pd_checksum: u16,
    /// flag bits
    pub pd_flags: u16,
    /// offset to the start of free space
    pub pd_lower: LocationIndex,
    /// offset to the end of free space
    pub pd_upper: LocationIndex,
    /// offset to the start of the special space
    pub pd_special: LocationIndex,
    pub pd_version: u8,
    pub pd_pagesize: u16,
    /// oldest prunable transaction, or zero
    pub pd_prune_xid: TransactionId,
}

/// A line pointer: where a tuple lies on the page and its state.
#[derive(Clone, Copy, Debug, PartialEq, Eq, Structural)]
pub struct ItemId {
    /// offset of the tuple from the start of the page
    pub lp_off: u16,
    /// state of the line pointer
    pub lp_flags: u8,
    /// length of the tuple
    pub lp_len: u16,
}

#[derive(Clone, Debug, PartialEq, Eq)]
pub enum PageError {
    /// offset asked for, and the number of line pointers
    InvalidOffset(usize, usize),
    LinePointerParseError(String),
    /// this many more bytes are required
    Incomplete(usize),
}

/// A heap page: its decoded header and its 8192 bytes.
#[derive(Clone, Debug)]
pub struct Page {
    pub header: PageHeader,
    pub data: Vec<u8>,
}

/// The page header stored in the first 24 bytes of `b`.
pub open spec fn page_header_of(b: Seq<u8>) -> PageHeader {
    PageHeader {
        pd_lsn: le_u64_at(b, 0),
        pd_checksum: le_u16_at(b, 8),
        pd_flags: le_u16_at(b, 10),
        pd_lower: le_u16_at(b, 12),
        pd_upper: le_u16_at(b, 14),
        pd_special: le_u16_at(b, 16),
        pd_version: b[18],
        pd_pagesize: (b[19] as int * 0x100) as u16,
        pd_prune_xid: le_u32_at(b, 20),
    }
}

/// The line pointer packed in the little-endian word `w`: 15 bits of offset,
/// 2 bits of state and 15 bits of length, least significant first.
pub open spec fn item_id_of(w: u32) -> ItemId {
    ItemId {
        lp_off: (w & 0x7fff) as u16,
        lp_flags: ((w >> 15u32) & 0x3) as u8,
        lp_len: ((w >> 17u32) & 0x7fff) as u16,
    }
}

/// Number of line pointers of a page whose `pd_lower` is `lower`.
pub open spec fn max_offset_number(lower: u16) -> int {
    if lower <= 24 {
        0
    } else {
        (lower - 24) / 4
    }
}

/// Decodes the 24-byte page header at the front of `i`.
pub fn parse_page_header(i: &[u8]) -> (r: Result<(&[u8], PageHeader), PageError>)
    ensures
        i@.len() < 24 ==> (r matches Err(PageError::Incomplete(n)) && n == 24 - i@.len()),
        i@.len() >= 24 ==> (r matches Ok((rest, h)) && h == page_header_of(i@) && rest@
            == i@.subrange(24, i@.len() as int)),
{
    let n = i.len();
    if n < PAGE_HEADER_MEM_SIZE {
        return Err(PageError::Incomplete(PAGE_HEADER_MEM_SIZE - n));
    }
    let header = PageHeader {
        pd_lsn: read_u64(i, 0),
        pd_checksum: read_u16(i, 8),
        pd_flags: read_u16(i, 10),
        pd_lower: read_u16(i, 12),
        pd_upper: read_u16(i, 14),
        pd_special: read_u16(i, 16),
        pd_version: read_u8(i, 18),
        pd_pagesize: read_u8(i, 19) as u16 * 0x100,
        pd_prune_xid: read_u32(i, 20),
    };
    Ok((slice_subrange(i, PAGE_HEADER_MEM_SIZE, n), header))
}

/// Decodes the line pointer in the 4 bytes at the front of `i`.
pub fn parse_line_pointer(i: &[u8]) -> (r: Result<(&[u8], ItemId), PageError>)
    ensures
        i@.len() < 4 ==> (r matches Err(PageError::Incomplete(n)) && n == 4 - i@.len()),
        i@.len() >= 4 ==> (r matches Ok((rest, lp)) && lp == item_id_of(le_u32_at(i@, 0)) && rest@
            == i@.subrange(4, i@.len() as int)),
{
    let n = i.len();
    if n < ITEM_ID_DATA_MEM_SIZE {
        return Err(PageError::Incomplete(ITEM_ID_DATA_MEM_SIZE - n));
    }
    let w = read_u32(i, 0);
    let lp = ItemId {
        lp_off: (w & 0x7fff) as u16,
        lp_flags: ((w >> 15u32) & 0x3) as u8,
        lp_len: ((w >> 17u32) & 0x7fff) as u16,
    };
    Ok((slice_subrange(i, ITEM_ID_DATA_MEM_SIZE, n), lp))
}

/// Decodes a whole heap page at the front of `i`.
pub fn parse_page(i: &[u8]) -> (r: Result<(&[u8], Page), PageError>)
    ensures
        i@.len() < PAGE_SIZE ==> (r matches Err(PageError::Incomplete(n)) && n == PAGE_SIZE
            - i@.len()),
        i@.len() >= PAGE_SIZE ==> (r matches Ok((rest, p)) && p.wf() && p.header
            == page_header_of(i@) && p.data@ == i@.subrange(0, PAGE_SIZE as int) && rest@
            == i@.subrange(PAGE_SIZE as int, i@.len() as int)),
{
    let n = i.len();
    if n < PAGE_SIZE {
        return Err(PageError::Incomplete(PAGE_SIZE - n));
    }
    let (_, header) = match parse_page_header(i) {
        Ok(v) => v,
        Err(e) => return Err(e),
    };
    let data = slice_to_vec(slice_subrange(i, 0, PAGE_SIZE));
    Ok((slice_subrange(i, PAGE_SIZE, n), Page { header, data }))
}

impl Page {
    /// The header describes the bytes, and there are 8192 of them.
    pub open spec fn wf(&self) -> bool {
        &&& self.data@.len() == PAGE_SIZE
        &&& self.header == page_header_of(self.data@)
    }

    /// Number of line pointers, from the header's `pd_lower`.
    pub fn num_lp(&self) -> (r: usize)
        ensures
            r == max_offset_number(self.header.pd_lower),
    {
        let pd_lower = self.header.pd_lower as usize;
        if pd_lower <= PAGE_HEADER_MEM_SIZE {
            return 0;
        }
        (pd_lower - PAGE_HEADER_MEM_SIZE) / ITEM_ID_DATA_MEM_SIZE
    }

    /// The line pointer at index `offset` (0-based) of the line-pointer array.
    pub fn get_line_pointer(&self, offset: usize) -> (r: Result<ItemId, PageError>)
        requires
            self.wf(),
        ensures
            offset >= max_offset_number(self.header.pd_lower) ==> (r matches Err(
                PageError::InvalidOffset(o, m),
            ) && o == offset && m == max_offset_number(self.header.pd_lower)),
            offset < max_offset_number(self.header.pd_lower) && 24 + 4 * offset + 4 > PAGE_SIZE
                ==> r matches Err(PageError::LinePointerParseError(_)),
            offset < max_offset_number(self.header.pd_lower) && 24 + 4 * offset + 4 <= PAGE_SIZE
                ==> (r matches Ok(lp) && lp == item_id_of(le_u32_at(self.data@, 24 + 4 * offset))),
    {
        let max_offset = self.num_lp();
        if offset >= max_offset {
            return Err(PageError::InvalidOffset(offset, max_offset));
        }
        if offset > (PAGE_SIZE - PAGE_HEADER_MEM_SIZE) / ITEM_ID_DATA_MEM_SIZE - 1 {
            return Err(PageError::LinePointerParseError("line pointer lies past the end of the page".to_owned()));
        }
        let start = PAGE_HEADER_MEM_SIZE + offset * ITEM_ID_DATA_MEM_SIZE;
        let w = read_u32(self.data.as_slice(), start);
        Ok(
            ItemId {
                lp_off: (w & 0x7fff) as u16,
                lp_flags: ((w >> 15u32) & 0x3) as u8,
                lp_len: ((w >> 17u32) & 0x7fff) as u16,
            },
        )
    }

    /// The header of the tuple that line pointer `offset` points to, which
    /// must be in use.
    pub fn get_tuple(&self, offset: usize) -> (r: Result<HeapTupleHeader, PageError>)
        requires
            self.wf(),
        ensures
            offset >= max_offset_number(self.header.pd_lower) ==> r matches Err(
                PageError::InvalidOffset(_, _),
            ),
            r is Ok <==> ({
                let lp = item_id_of(le_u32_at(self.data@, 24 + 4 * offset));
                &&& offset < max_offset_number(self.header.pd_lower)
                &&& 24 + 4 * offset + 4 <= PAGE_SIZE
                &&& lp.lp_flags == LP_NORMAL
                &&& lp.lp_off <= PAGE_SIZE
                &&& tuple_fits(self.data@.subrange(lp.lp_off as int, PAGE_SIZE as int))
            }),
            r is Ok ==> ({
                let lp = item_id_of(le_u32_at(self.data@, 24 + 4 * offset));
                &&& offset < max_offset_number(self.header.pd_lower)
                &&& lp.lp_flags == LP_NORMAL
                &&& lp.lp_off <= PAGE_SIZE
                &&& tuple_header_matches(
                    self.data@.subrange(lp.lp_off as int, PAGE_SIZE as int),
                    r->Ok_0,
                )
            }),
    {
        let lp = match self.get_line_pointer(offset) {
            Ok(lp) => lp,
            Err(e) => return Err(e),
        };
        if lp.lp_flags != LP_NORMAL {
            return Err(PageError::LinePointerParseError("line pointer is not in use".to_owned()));
        }
        let start = lp.lp_off as usize;
        if start > PAGE_SIZE {
            return Err(PageError::LinePointerParseError("tuple lies past the end of the page".to_owned()));
        }
        let bytes = slice_subrange(self.data.as_slice(), start, PAGE_SIZE);
        match parse_heap_tuple_header(bytes) {
            Ok((_, t)) => Ok(t),
            Err(e) => Err(e),
        }
    }
}

} // verus!
