//! Heap tuple headers and their NULL bitmaps.
use vstd::prelude::*;
use vstd::slice::slice_subrange;
use vstd::slice::slice_to_vec;

use crate::framing::{le_u16_at, le_u32_at, read_u16, read_u32, read_u8};
use crate::inspect::page::PageError;

verus! {

pub type TransactionId = u32;
pub type CommandId = u32;
pub type Oid = u32;
pub type BlockIdData = u32;
pub type OffsetNumber = u16;

/// Size of the fixed part of a tuple header.
pub const HEAP_TUPLE_FIXED_SIZE: usize = 23;
/// Low 11 bits of `t_infomask2`: the number of attributes.
pub const HEAP_NATTS_MASK: u16 = 0x07FF;

/// Block and offset of a tuple.
#[derive(Clone, Copy, Debug, PartialEq, Eq, Structural)]
pub struct ItemPointerData {
    pub ip_blkid: BlockIdData,
    pub ip_posid: OffsetNumber,
}

/// The transaction fields of a tuple header; the third field holds either a
/// command id or an old-style vacuum transaction id.
#[derive(Clone, Copy, Debug, PartialEq, Eq, Structural)]
pub struct HeapTupleFields {
    /// inserting transaction
    pub xmin: TransactionId,
    /// deleting or locking transaction
    pub xmax: TransactionId,
    /// inserting or deleting command id
    pub t_cid: Option<CommandId>,
    /// old-style vacuum transaction id
    pub t_xvac: Option<TransactionId>,
}

impl HeapTupleFields {
    pub fn new(is_cid: bool, t: (TransactionId, TransactionId, u32)) -> (r: HeapTupleFields)
        ensures
            r.xmin == t.0,
            r.xmax == t.1,
            r.t_cid == (if is_cid { Some(t.2) } else { None }),
            r.t_xvac == (if is_cid { None } else { Some(t.2) }),
    {
        let (xmin, xmax, val) = t;
        let t_cid = if is_cid { Some(val) } else { None };
        let t_xvac = if !is_cid { Some(val) } else { None };
        HeapTupleFields { xmin, xmax, t_cid, t_xvac }
    }
}

/// Decodes the transaction fields at the front of `i`: xmin, xmax, then a
/// command id when `is_cid` holds, else an old-style vacuum transaction id.
pub fn parse_heap_tuple_fields(i: &[u8], is_cid: bool) -> (r: Result<(&[u8], HeapTupleFields), PageError>)
    ensures
        i@.len() < 12 ==> (r matches Err(PageError::Incomplete(n)) && n == 12 - i@.len()),
        i@.len() >= 12 ==> (r matches Ok((rest, f)) && f.xmin == le_u32_at(i@, 0) && f.xmax
            == le_u32_at(i@, 4) && f.t_cid == (if is_cid { Some(le_u32_at(i@, 8)) } else { None })
            && f.t_xvac == (if is_cid { None } else { Some(le_u32_at(i@, 8)) }) && rest@
            == i@.subrange(12, i@.len() as int)),
{
    let n = i.len();
    if n < 12 {
        return Err(PageError::Incomplete(12 - n));
    }
    let fields = HeapTupleFields::new(is_cid, (read_u32(i, 0), read_u32(i, 4), read_u32(i, 8)));
    Ok((slice_subrange(i, 12, n), fields))
}

/// The fields of a tuple header that holds a composite datum.
#[derive(Clone, Copy, Debug, PartialEq, Eq, Structural)]
pub struct DatumTupleFields {
    /// varlena header
    pub datum_len: i32,
    /// -1, or the identifier of a record type
    pub datum_typmod: i32,
    /// composite type id
    pub datum_typeid: Oid,
}

#[derive(Clone, Debug, PartialEq, Eq)]
pub struct HeapTupleHeader {
    pub xmin: TransactionId,
    pub xmax: TransactionId,
    pub t_cid: CommandId,
    pub t_ctid: ItemPointerData,
    /// number of attributes and flags
    pub t_infomask2: u16,
    /// flag bits
    pub t_infomask: u16,
    /// size of the header, bitmap and padding included
    pub t_hoff: u8,
    /// NULL bitmap: bit i (least significant first) set when attribute i is not null
    pub t_bits: Vec<u8>,
}

/// Number of attributes recorded in `infomask2`.
pub open spec fn natts_of(infomask2: u16) -> int {
    (infomask2 & HEAP_NATTS_MASK) as int
}

/// Size of the NULL bitmap for `natts` attributes.
pub open spec fn bitmap_len(natts: int) -> int {
    (natts + 7) / 8
}

/// A tuple header with its transaction fields in either of their two forms:
/// those of a heap tuple, or those of a composite datum.
#[derive(Clone, Debug, PartialEq, Eq)]
pub struct HeapTupleHeaderData {
    pub t_heap: Option<HeapTupleFields>,
    pub t_datum: Option<DatumTupleFields>,
    /// current id of this or a newer tuple
    pub t_ctid: ItemPointerData,
    /// number of attributes and flags
    pub t_infomask2: u16,
    /// flag bits
    pub t_infomask: u16,
    /// size of the header, bitmap and padding included
    pub t_hoff: u8,
    /// NULL bitmap
    pub t_bits: Vec<u8>,
}

impl HeapTupleHeader {
    /// The same header, its transaction fields in their heap-tuple form.
    pub fn to_header_data(&self) -> (r: HeapTupleHeaderData)
        ensures
            r.t_heap == Some(
                HeapTupleFields {
                    xmin: self.xmin,
                    xmax: self.xmax,
                    t_cid: Some(self.t_cid),
                    t_xvac: None,
                },
            ),
            r.t_datum is None,
            r.t_ctid == self.t_ctid,
            r.t_infomask2 == self.t_infomask2,
            r.t_infomask == self.t_infomask,
            r.t_hoff == self.t_hoff,
            r.t_bits@ == self.t_bits@,
    {
        let mut bits: Vec<u8> = Vec::new();
        let mut k: usize = 0;
        while k < self.t_bits.len()
            invariant
                k <= self.t_bits@.len(),
                bits@ == self.t_bits@.subrange(0, k as int),
            decreases self.t_bits@.len() - k,
        {
            bits.push(self.t_bits[k]);
            assert(bits@ =~= self.t_bits@.subrange(0, k + 1));
            k = k + 1;
        }
        assert(bits@ =~= self.t_bits@);
        HeapTupleHeaderData {
            t_heap: Some(HeapTupleFields::new(true, (self.xmin, self.xmax, self.t_cid))),
            t_datum: None,
            t_ctid: self.t_ctid,
            t_infomask2: self.t_infomask2,
            t_infomask: self.t_infomask,
            t_hoff: self.t_hoff,
            t_bits: bits,
        }
    }
}

impl HeapTupleHeader {
    /// Whether attribute `attno` (0-based) is null according to the bitmap.
    pub open spec fn spec_is_null(&self, attno: int) -> bool {
        self.t_bits@[attno / 8] & (1u8 << ((attno % 8) as u8)) == 0
    }

    pub fn is_null(&self, attno: usize) -> (r: bool)
        requires
            attno < 8 * self.t_bits@.len(),
        ensures
            r == self.spec_is_null(attno as int),
    {
        let byte = self.t_bits[attno / 8];
        byte & (1u8 << ((attno % 8) as u8)) == 0
    }
}

/// `b` is long enough for a tuple header: its 23 fixed bytes and its bitmap.
pub open spec fn tuple_fits(b: Seq<u8>) -> bool {
    b.len() >= 23 && b.len() >= 23 + bitmap_len(natts_of(le_u16_at(b, 18)))
}

/// `h` is the tuple header stored at the front of `b`.
pub open spec fn tuple_header_matches(b: Seq<u8>, h: HeapTupleHeader) -> bool {
    let blen = bitmap_len(natts_of(le_u16_at(b, 18)));
    &&& b.len() >= 23 + blen
    &&& h.xmin == le_u32_at(b, 0)
    &&& h.xmax == le_u32_at(b, 4)
    &&& h.t_cid == le_u32_at(b, 8)
    &&& h.t_ctid.ip_blkid == le_u32_at(b, 12)
    &&& h.t_ctid.ip_posid == le_u16_at(b, 16)
    &&& h.t_infomask2 == le_u16_at(b, 18)
    &&& h.t_infomask == le_u16_at(b, 20)
    &&& h.t_hoff == b[22]
    &&& h.t_bits@ == b.subrange(23, 23 + blen)
}

/// Decodes a tuple header at the front of `i`: 23 fixed bytes, then a NULL
/// bitmap of one bit per attribute.
pub fn parse_heap_tuple_header(i: &[u8]) -> (r: Result<(&[u8], HeapTupleHeader), PageError>)
    ensures
        i@.len() < 23 ==> r matches Err(PageError::Incomplete(_)),
        i@.len() >= 23 ==> ({
            let blen = bitmap_len(natts_of(le_u16_at(i@, 18)));
            if i@.len() < 23 + blen {
                r matches Err(PageError::Incomplete(_))
            } else {
                r matches Ok((rest, h)) && tuple_header_matches(i@, h) && rest@ == i@.subrange(
                    23 + blen,
                    i@.len() as int,
                )
            }
        }),
{
    let n = i.len();
    if n < HEAP_TUPLE_FIXED_SIZE {
        return Err(PageError::Incomplete(HEAP_TUPLE_FIXED_SIZE - n));
    }
    let t_infomask2 = read_u16(i, 18);
    let natts = (t_infomask2 & HEAP_NATTS_MASK) as usize;
    let blen = (natts + 7) / 8;
    if n - HEAP_TUPLE_FIXED_SIZE < blen {
        return Err(PageError::Incomplete(blen - (n - HEAP_TUPLE_FIXED_SIZE)));
    }
    let end = HEAP_TUPLE_FIXED_SIZE + blen;
    let header = HeapTupleHeader {
        xmin: read_u32(i, 0),
        xmax: read_u32(i, 4),
        t_cid: read_u32(i, 8),
        t_ctid: ItemPointerData { ip_blkid: read_u32(i, 12), ip_posid: read_u16(i, 16) },
        t_infomask2,
        t_infomask: read_u16(i, 20),
        t_hoff: read_u8(i, 22),
        t_bits: slice_to_vec(slice_subrange(i, HEAP_TUPLE_FIXED_SIZE, end)),
    };
    Ok((slice_subrange(i, end, n), header))
}

} // verus!
