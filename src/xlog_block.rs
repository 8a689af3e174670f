//! Block references of a WAL record: per-block headers, full-page images,
//! relation-file locators and the main-data header, followed by their payloads.
use vstd::prelude::*;
use vstd::slice::slice_subrange;
use vstd::slice::slice_to_vec;

use crate::error::XLogError;
use crate::framing::{le_u16_at, le_u32_at, read_u16, read_u32, read_u8};

verus! {

pub const BKPBLOCK_FORK_MASK: u8 = 0x0F;
pub const BKPBLOCK_FLAG_MASK: u8 = 0xF0;
/// block data is followed by a full-page image
pub const BKPBLOCK_HAS_IMAGE: u8 = 0x10;
pub const BKPBLOCK_HAS_DATA: u8 = 0x20;
/// redo will re-init the page
pub const BKPBLOCK_WILL_INIT: u8 = 0x40;
/// locator omitted, same as the previous block's
pub const BKPBLOCK_SAME_REL: u8 = 0x80;

pub const XLR_MAX_BLOCK_ID: u8 = 32;
pub const XLR_BLOCK_ID_TOPLEVEL_XID: u8 = 0xfc;
pub const XLR_BLOCK_ID_ORIGIN: u8 = 0xfd;
pub const XLR_BLOCK_ID_DATA_LONG: u8 = 0xfe;
pub const XLR_BLOCK_ID_DATA_SHORT: u8 = 0xff;

/// page image has a "hole"
pub const BKPIMAGE_HAS_HOLE: u8 = 0x01;
/// page image is compressed
pub const BKPIMAGE_IS_COMPRESSED: u8 = 0x02;
/// page image should be restored during replay
pub const BKPIMAGE_APPLY: u8 = 0x04;

/// Size of a page in bytes.
pub const BLCKSZ: u16 = 8192;

pub type BlockNumber = u32;

#[derive(Clone, Copy, Debug, PartialEq, Eq, Structural, Hash)]
pub enum ForkNumber {
    Main,
    Fsm,
    VisibilityMap,
    Init,
}

/// The fork that the code `c` names, if any.
pub open spec fn fork_of(c: u8) -> Option<ForkNumber> {
    if c == 0 {
        Some(ForkNumber::Main)
    } else if c == 1 {
        Some(ForkNumber::Fsm)
    } else if c == 2 {
        Some(ForkNumber::VisibilityMap)
    } else if c == 3 {
        Some(ForkNumber::Init)
    } else {
        None
    }
}

impl ForkNumber {
    /// Decodes a fork code (the low nibble of a block's flag byte).
    pub fn from_code(c: u8) -> (r: Option<ForkNumber>)
        ensures
            r == fork_of(c),
    {
        match c {
            0 => Some(ForkNumber::Main),
            1 => Some(ForkNumber::Fsm),
            2 => Some(ForkNumber::VisibilityMap),
            3 => Some(ForkNumber::Init),
            _ => None,
        }
    }
}

#[derive(Clone, Copy, Debug, PartialEq, Eq, Structural, Hash)]
pub struct RelFileLocator {
    pub spc_node: u32,
    pub db_node: u32,
    pub rel_node: u32,
}

/// Identity of a page: relation, fork and block number.
#[derive(Clone, Copy, Debug, PartialEq, Eq, Structural, Hash)]
pub struct PageId {
    pub locator: RelFileLocator,
    pub blockno: BlockNumber,
    pub fork: ForkNumber,
}

/// Header of a full-page image, as it stands in the record.
#[derive(Clone, Copy, Debug, PartialEq, Eq, Structural)]
pub struct XLogRecordBlockImageHeader {
    /// number of page image bytes
    pub length: u16,
    /// number of bytes before the hole
    pub hole_offset: u16,
    /// flag bits
    pub bimg_info: u8,
    /// length of the hole
    pub hole_length: u16,
}

/// Header of one block reference (or of the main data, for ids 0xFE and 0xFF).
#[derive(Clone, Copy, Debug, PartialEq, Eq, Structural)]
pub struct XLogRecordBlockHeader {
    /// block reference id
    pub id: u8,
    /// fork within the relation, and flags
    pub fork_flags: u8,
    /// number of payload bytes, not counting the page image
    pub data_length: u32,
    pub block_img: Option<XLogRecordBlockImageHeader>,
    pub page_id: Option<PageId>,
}

/// A full-page image carried by a block reference.
#[derive(Clone, Debug)]
pub struct XLBImage {
    /// has an image that should be restored
    pub apply_image: bool,
    pub hole_offset: u16,
    pub hole_length: u16,
    pub bimg_len: u16,
    pub bimg_info: u8,
    pub bkp_image: Vec<u8>,
}

/// A decoded block reference with its payload, or the main data.
#[derive(Clone, Debug)]
pub struct XLBData {
    pub blk_id: u8,
    /// the page the block refers to; none for the main data
    pub page_id: Option<PageId>,
    /// high nibble of the block's flag byte
    pub flags: u8,
    pub image: Option<XLBImage>,
    pub has_data: bool,
    pub data_len: u32,
    pub data: Option<Vec<u8>>,
}

/// `id` names a data block reference.
pub open spec fn is_data_block_id(id: u8) -> bool {
    id < XLR_MAX_BLOCK_ID
}

/// `id` introduces the main data.
pub open spec fn is_main_data_id(id: u8) -> bool {
    id == XLR_BLOCK_ID_DATA_LONG || id == XLR_BLOCK_ID_DATA_SHORT
}

/// The hole length an image header implies, from its flag bits.
pub open spec fn spec_hole_length(b: Seq<u8>, p: int) -> int {
    let info = b[p + 4];
    if info & BKPIMAGE_IS_COMPRESSED != 0 {
        if info & BKPIMAGE_HAS_HOLE != 0 {
            le_u16_at(b, p + 5) as int
        } else {
            0
        }
    } else {
        BLCKSZ - le_u16_at(b, p)
    }
}

/// Size in bytes of the image header at `b[p..]`.
pub open spec fn image_header_size(b: Seq<u8>, p: int) -> int {
    if b[p + 4] & BKPIMAGE_IS_COMPRESSED != 0 && b[p + 4] & BKPIMAGE_HAS_HOLE != 0 {
        7
    } else {
        5
    }
}

/// The image header fields are consistent: a declared hole has a positive
/// offset and length and the image is shorter than a page, and an
/// uncompressed image is no longer than a page.
pub open spec fn image_header_valid(b: Seq<u8>, p: int) -> bool {
    let info = b[p + 4];
    let len = le_u16_at(b, p);
    &&& (info & BKPIMAGE_IS_COMPRESSED == 0 ==> len <= BLCKSZ)
    &&& (info & BKPIMAGE_HAS_HOLE != 0 ==> le_u16_at(b, p + 2) > 0 && spec_hole_length(b, p) > 0
        && len < BLCKSZ)
}

/// Decodes a full-page image header at `b[pos..]`; returns it and the position after it.
fn parse_block_image(b: &[u8], pos: usize) -> (r: Result<(XLogRecordBlockImageHeader, usize), XLogError>)
    requires
        pos <= b@.len(),
    ensures
        pos + 5 > b@.len() ==> (r matches Err(XLogError::Incomplete(k)) && k == 5 - (b@.len() - pos)),
        pos + 5 <= b@.len() && pos + image_header_size(b@, pos as int) > b@.len() ==> (r matches Err(
            XLogError::Incomplete(k),
        ) && k == pos + image_header_size(b@, pos as int) - b@.len()),
        pos + 5 <= b@.len() && b@[pos + 4] & BKPIMAGE_IS_COMPRESSED == 0 && le_u16_at(b@, pos as int)
            > BLCKSZ ==> r == Err::<(XLogRecordBlockImageHeader, usize), XLogError>(
            XLogError::InvalidBlockImageHole(le_u16_at(b@, pos + 2), 0, le_u16_at(b@, pos as int)),
        ),
        pos + image_header_size(b@, pos as int) <= b@.len() && (b@[pos + 4] & BKPIMAGE_IS_COMPRESSED
            == 0 ==> le_u16_at(b@, pos as int) <= BLCKSZ) && !image_header_valid(b@, pos as int)
            ==> r == Err::<(XLogRecordBlockImageHeader, usize), XLogError>(
            XLogError::InvalidBlockImageHole(
                le_u16_at(b@, pos + 2),
                spec_hole_length(b@, pos as int) as u16,
                le_u16_at(b@, pos as int),
            ),
        ),
        r matches Ok((h, next)) ==> {
            &&& pos + image_header_size(b@, pos as int) == next <= b@.len()
            &&& image_header_valid(b@, pos as int)
            &&& h.length == le_u16_at(b@, pos as int)
            &&& h.hole_offset == le_u16_at(b@, pos as int + 2)
            &&& h.bimg_info == b@[pos + 4]
            &&& h.hole_length == spec_hole_length(b@, pos as int)
        },
        pos + 5 <= b@.len() && pos + image_header_size(b@, pos as int) <= b@.len() ==> (r is Ok
            <==> image_header_valid(b@, pos as int)),
{
    let n = b.len();
    if n - pos < 5 {
        return Err(XLogError::Incomplete(5 - (n - pos)));
    }
    let bimg_len = read_u16(b, pos);
    let hole_offset = read_u16(b, pos + 2);
    let bimg_info = read_u8(b, pos + 4);
    let is_compressed = bimg_info & BKPIMAGE_IS_COMPRESSED != 0;
    let has_hole = bimg_info & BKPIMAGE_HAS_HOLE != 0;
    let mut next = pos + 5;
    let hole_length: u16;
    if is_compressed {
        if has_hole {
            if n - next < 2 {
                return Err(XLogError::Incomplete(2 - (n - next)));
            }
            hole_length = read_u16(b, next);
            next = next + 2;
        } else {
            hole_length = 0;
        }
    } else {
        if bimg_len > BLCKSZ {
            return Err(XLogError::InvalidBlockImageHole(hole_offset, 0, bimg_len));
        }
        hole_length = BLCKSZ - bimg_len;
    }
    if has_hole && (hole_offset == 0 || hole_length == 0 || bimg_len >= BLCKSZ) {
        return Err(XLogError::InvalidBlockImageHole(hole_offset, hole_length, bimg_len));
    }
    let header = XLogRecordBlockImageHeader {
        length: bimg_len,
        hole_offset,
        bimg_info,
        hole_length,
    };
    Ok((header, next))
}


/// The data-block flags of `fork_flags` are consistent with `data_len`.
pub open spec fn data_flags_agree(fork_flags: u8, data_len: u16) -> bool {
    (fork_flags & BKPBLOCK_HAS_DATA != 0) == (data_len > 0)
}

/// The relation-file locator stored at `b[p..p + 12]`.
pub open spec fn locator_at(b: Seq<u8>, p: int) -> RelFileLocator {
    RelFileLocator {
        spc_node: le_u32_at(b, p),
        db_node: le_u32_at(b, p + 4),
        rel_node: le_u32_at(b, p + 8),
    }
}

fn parse_relfilenode(b: &[u8], pos: usize) -> (r: RelFileLocator)
    requires
        pos + 12 <= b@.len(),
    ensures
        r == locator_at(b@, pos as int),
{
    let end = b.len() - (b.len() - pos - 12);
    RelFileLocator {
        spc_node: read_u32(b, end - 12),
        db_node: read_u32(b, end - 8),
        rel_node: read_u32(b, end - 4),
    }
}


/// The id at `b[pos]` follows the id of the preceding data block reference.
pub open spec fn id_in_order(b: Seq<u8>, pos: int, prev: Option<XLogRecordBlockHeader>) -> bool {
    prev is Some ==> prev.unwrap().id < b[pos]
}

/// The header at `b[pos..]` decodes up to its relation locator: ordered id,
/// known fork, data flag agreeing with the data length, and a valid image
/// header if it announces one.
pub open spec fn header_ok_before_locator(b: Seq<u8>, pos: int, prev: Option<XLogRecordBlockHeader>) -> bool {
    let ff = b[pos + 1];
    let img_pos = pos + 4;
    &&& id_in_order(b, pos, prev)
    &&& pos + 4 <= b.len()
    &&& fork_of(ff & BKPBLOCK_FORK_MASK) is Some
    &&& data_flags_agree(ff, le_u16_at(b, pos + 2))
    &&& ff & BKPBLOCK_HAS_IMAGE != 0 ==> img_pos + 5 <= b.len() && img_pos + image_header_size(
        b,
        img_pos,
    ) <= b.len() && image_header_valid(b, img_pos)
}

/// The header of the data block reference at `b[pos..]` and the position
/// after it, or `None` when it does not decode. `prev` is the header of the
/// preceding data block reference of the record, if any.
pub open spec fn spec_data_header(b: Seq<u8>, pos: int, prev: Option<XLogRecordBlockHeader>) -> Option<
    (XLogRecordBlockHeader, int),
> {
    let ff = b[pos + 1];
    let dl = le_u16_at(b, pos + 2);
    let has_img = ff & BKPBLOCK_HAS_IMAGE != 0;
    let same = ff & BKPBLOCK_SAME_REL != 0;
    let img_pos = pos + 4;
    let loc_pos = if has_img {
        img_pos + image_header_size(b, img_pos)
    } else {
        img_pos
    };
    let blkno_pos = if same {
        loc_pos
    } else {
        loc_pos + 12
    };
    if pos + 4 > b.len() || (prev is Some && b[pos] <= prev.unwrap().id) || fork_of(
        ff & BKPBLOCK_FORK_MASK,
    ) is None || !data_flags_agree(ff, dl) || (has_img && (img_pos + 5 > b.len() || loc_pos > b.len()
        || !image_header_valid(b, img_pos))) || (same && !(prev is Some && prev.unwrap().page_id is Some))
        || blkno_pos + 4 > b.len() {
        None
    } else {
        let locator = if same {
            prev.unwrap().page_id.unwrap().locator
        } else {
            locator_at(b, loc_pos)
        };
        let img = if has_img {
            Some(
                XLogRecordBlockImageHeader {
                    length: le_u16_at(b, img_pos),
                    hole_offset: le_u16_at(b, img_pos + 2),
                    bimg_info: b[img_pos + 4],
                    hole_length: spec_hole_length(b, img_pos) as u16,
                },
            )
        } else {
            None
        };
        Some(
            (
                XLogRecordBlockHeader {
                    id: b[pos],
                    fork_flags: ff,
                    data_length: dl as u32,
                    block_img: img,
                    page_id: Some(
                        PageId {
                            locator,
                            blockno: le_u32_at(b, blkno_pos),
                            fork: fork_of(ff & BKPBLOCK_FORK_MASK).unwrap(),
                        },
                    ),
                },
                blkno_pos + 4,
            ),
        )
    }
}

/// Decodes a data block reference header at `b[pos..]`, whose id is
/// below 32. `previous` is the header of the preceding data block reference of
/// the record, if any. Returns the header and the position after it.
fn parse_data_block_header(b: &[u8], pos: usize, previous: Option<XLogRecordBlockHeader>) -> (r:
    Result<(XLogRecordBlockHeader, usize), XLogError>)
    requires
        pos < b@.len(),
        is_data_block_id(b@[pos as int]),
        previous matches Some(p) ==> p.page_id is Some,
    ensures
        previous is Some && b@[pos as int] <= previous.unwrap().id ==> (r matches Err(
            XLogError::InvalidBlockId(prev, cur),
        ) && prev == Some(previous.unwrap().id) && cur == b@[pos as int]),
        id_in_order(b@, pos as int, previous) && pos + 4 <= b@.len() && fork_of(b@[pos + 1]
            & BKPBLOCK_FORK_MASK) is None ==> (r matches Err(XLogError::InvalidForkNumber(c)) && c
            == b@[pos + 1] & BKPBLOCK_FORK_MASK),
        id_in_order(b@, pos as int, previous) && pos + 4 <= b@.len() && fork_of(b@[pos + 1]
            & BKPBLOCK_FORK_MASK) is Some && b@[pos + 1] & BKPBLOCK_HAS_DATA != 0 && le_u16_at(
            b@,
            pos + 2,
        ) == 0 ==> r matches Err(XLogError::MissingBlockDataLen),
        id_in_order(b@, pos as int, previous) && pos + 4 <= b@.len() && fork_of(b@[pos + 1]
            & BKPBLOCK_FORK_MASK) is Some && b@[pos + 1] & BKPBLOCK_HAS_DATA == 0 && le_u16_at(
            b@,
            pos + 2,
        ) > 0 ==> (r matches Err(XLogError::UnexpectedBlockDataLen(d)) && d == le_u16_at(
            b@,
            pos + 2,
        )),
        header_ok_before_locator(b@, pos as int, previous) && b@[pos + 1] & BKPBLOCK_SAME_REL != 0
            && previous is None ==> r matches Err(XLogError::OutOfOrderBlock),
        r is Ok <==> spec_data_header(b@, pos as int, previous) is Some,
        r matches Ok((h, next)) ==> pos < next <= b@.len() && spec_data_header(
            b@,
            pos as int,
            previous,
        ) == Some((h, next as int)),
{
    let n = b.len();
    let blk_id = read_u8(b, pos);
    match previous {
        Some(p) => {
            if blk_id <= p.id {
                return Err(XLogError::InvalidBlockId(Some(p.id), blk_id));
            }
        },
        None => {},
    }
    if n - pos < 4 {
        return Err(XLogError::Incomplete(4 - (n - pos)));
    }
    let fork_flags = read_u8(b, pos + 1);
    let fork = match ForkNumber::from_code(fork_flags & BKPBLOCK_FORK_MASK) {
        Some(f) => f,
        None => return Err(XLogError::InvalidForkNumber(fork_flags & BKPBLOCK_FORK_MASK)),
    };
    let has_image = fork_flags & BKPBLOCK_HAS_IMAGE != 0;
    let has_data = fork_flags & BKPBLOCK_HAS_DATA != 0;
    let data_len = read_u16(b, pos + 2);
    if has_data && data_len == 0 {
        return Err(XLogError::MissingBlockDataLen);
    }
    if !has_data && data_len > 0 {
        return Err(XLogError::UnexpectedBlockDataLen(data_len));
    }
    let mut next = pos + 4;
    let block_img = if has_image {
        match parse_block_image(b, next) {
            Ok((img, after)) => {
                next = after;
                Some(img)
            },
            Err(e) => return Err(e),
        }
    } else {
        None
    };
    let locator = if fork_flags & BKPBLOCK_SAME_REL != 0 {
        match previous {
            Some(p) => match p.page_id {
                Some(page) => page.locator,
                None => return Err(XLogError::OutOfOrderBlock),
            },
            None => return Err(XLogError::OutOfOrderBlock),
        }
    } else {
        if n - next < 12 {
            return Err(XLogError::Incomplete(12 - (n - next)));
        }
        let l = parse_relfilenode(b, next);
        next = next + 12;
        l
    };
    if n - next < 4 {
        return Err(XLogError::Incomplete(4 - (n - next)));
    }
    let blockno = read_u32(b, next);
    next = next + 4;
    let header = XLogRecordBlockHeader {
        id: blk_id,
        fork_flags,
        data_length: data_len as u32,
        block_img,
        page_id: Some(PageId { locator, blockno, fork }),
    };
    Ok((header, next))
}


/// Number of payload bytes that a header announces: image bytes, then data bytes.
pub open spec fn declared_len(h: XLogRecordBlockHeader) -> int {
    (match h.block_img {
        Some(img) => img.length as int,
        None => 0,
    }) + h.data_length as int
}

pub open spec fn declared_total(hs: Seq<XLogRecordBlockHeader>) -> int
    decreases hs.len(),
{
    if hs.len() == 0 {
        0
    } else {
        declared_total(hs.drop_last()) + declared_len(hs.last())
    }
}

/// The payload bytes of one decoded block: its image, then its data.
pub open spec fn block_payload(blk: XLBData) -> Seq<u8> {
    (match blk.image {
        Some(img) => img.bkp_image@,
        None => Seq::empty(),
    }) + (match blk.data {
        Some(d) => d@,
        None => Seq::empty(),
    })
}

/// The payload bytes of a block list, in order.
pub open spec fn payload_bytes(bs: Seq<XLBData>) -> Seq<u8>
    decreases bs.len(),
{
    if bs.len() == 0 {
        Seq::empty()
    } else {
        payload_bytes(bs.drop_last()) + block_payload(bs.last())
    }
}

/// A decoded block agrees with the header it was decoded from.
pub open spec fn block_matches(blk: XLBData, h: XLogRecordBlockHeader) -> bool {
    &&& blk.blk_id == h.id
    &&& blk.page_id == h.page_id
    &&& blk.flags == h.fork_flags & BKPBLOCK_FLAG_MASK
    &&& blk.has_data == (h.data_length > 0 || is_main_data_id(h.id))
    &&& blk.data_len == h.data_length
    &&& blk.data matches Some(d) && d@.len() == h.data_length
    &&& match (blk.image, h.block_img) {
        (Some(img), Some(ih)) => {
            &&& img.bimg_len == ih.length
            &&& img.hole_offset == ih.hole_offset
            &&& img.hole_length == ih.hole_length
            &&& img.bimg_info == ih.bimg_info
            &&& img.apply_image == (ih.bimg_info & BKPIMAGE_APPLY != 0)
            &&& img.bkp_image@.len() == ih.length
        },
        (None, None) => true,
        _ => false,
    }
}

/// Properties of a block list decoded from one record.
pub open spec fn blocks_well_formed(bs: Seq<XLBData>) -> bool {
    &&& forall|k: int|
        0 <= k < bs.len() ==> is_data_block_id(#[trigger] bs[k].blk_id) || (k == bs.len() - 1
            && is_main_data_id(bs[k].blk_id))
    &&& forall|j: int, k: int|
        0 <= j < k < bs.len() && is_data_block_id(#[trigger] bs[k].blk_id) ==> #[trigger] bs[j].blk_id
            < bs[k].blk_id
    &&& forall|k: int|
        0 <= k < bs.len() && is_data_block_id(#[trigger] bs[k].blk_id) ==> {
            &&& bs[k].page_id is Some
            &&& bs[k].has_data == (bs[k].data_len > 0)
            &&& bs[k].data_len < 0x1_0000
        }
    &&& forall|k: int|
        0 <= k < bs.len() && is_main_data_id(#[trigger] bs[k].blk_id) ==> {
            &&& bs[k].page_id is None
            &&& bs[k].image is None
            &&& bs[k].has_data
        }
    &&& forall|k: int|
        0 <= k < bs.len() ==> {
            &&& #[trigger] bs[k].data matches Some(d) && d@.len() == bs[k].data_len
            &&& bs[k].image matches Some(img) ==> img.bkp_image@.len() == img.bimg_len
        }
}

proof fn lemma_payload_push(bs: Seq<XLBData>, b: XLBData)
    ensures
        payload_bytes(bs.push(b)) == payload_bytes(bs) + block_payload(b),
{
    assert(bs.push(b).drop_last() =~= bs);
}

proof fn lemma_declared_take(hs: Seq<XLogRecordBlockHeader>, k: int)
    requires
        0 <= k < hs.len(),
    ensures
        declared_total(hs.take(k + 1)) == declared_total(hs.take(k)) + declared_len(hs[k]),
{
    assert(hs.take(k + 1).drop_last() =~= hs.take(k));
}

proof fn lemma_declared_push(hs: Seq<XLogRecordBlockHeader>, h: XLogRecordBlockHeader)
    ensures
        declared_total(hs.push(h)) == declared_total(hs) + declared_len(h),
{
    assert(hs.push(h).drop_last() =~= hs);
}


/// Decodes the headers of a record body `b` from position `pos`, after the
/// headers `hs` that announce `total` payload bytes, the last data block
/// reference header among them being `prev`. Headers are read while more bytes
/// remain than the payloads announced so far, and up to a main-data header.
/// Yields all headers, the position after them and the payload total, or
/// `None` when a header does not decode or announces more bytes than remain.
pub open spec fn spec_headers(
    b: Seq<u8>,
    pos: int,
    prev: Option<XLogRecordBlockHeader>,
    hs: Seq<XLogRecordBlockHeader>,
    total: int,
) -> Option<(Seq<XLogRecordBlockHeader>, int, int)>
    decreases b.len() - pos,
{
    if pos < 0 || b.len() - pos <= total {
        Some((hs, pos, total))
    } else {
        let id = b[pos];
        if is_data_block_id(id) {
            match spec_data_header(b, pos, prev) {
                Some((h, next)) => {
                    if next <= pos || declared_len(h) > b.len() - next - total {
                        None
                    } else {
                        spec_headers(b, next, Some(h), hs.push(h), total + declared_len(h))
                    }
                },
                None => None,
            }
        } else if id == XLR_BLOCK_ID_TOPLEVEL_XID || id == XLR_BLOCK_ID_ORIGIN {
            let w = if id == XLR_BLOCK_ID_TOPLEVEL_XID {
                5int
            } else {
                3int
            };
            if pos + w > b.len() || total > b.len() - pos - w {
                None
            } else {
                spec_headers(b, pos + w, prev, hs, total)
            }
        } else if is_main_data_id(id) {
            let w = if id == XLR_BLOCK_ID_DATA_SHORT {
                1int
            } else {
                4int
            };
            let next = pos + 1 + w;
            let dl = if id == XLR_BLOCK_ID_DATA_SHORT {
                b[pos + 1] as u32
            } else {
                le_u32_at(b, pos + 1)
            };
            if next > b.len() || dl > b.len() - next - total {
                None
            } else {
                Some(
                    (
                        hs.push(
                            XLogRecordBlockHeader {
                                id,
                                fork_flags: 0,
                                data_length: dl,
                                block_img: None,
                                page_id: None,
                            },
                        ),
                        next,
                        total + dl,
                    ),
                )
            }
        } else {
            None
        }
    }
}

/// The headers of record body `b`, the position after them and the payload
/// total, when they decode.
pub open spec fn body_headers(b: Seq<u8>) -> Option<(Seq<XLogRecordBlockHeader>, int, int)> {
    spec_headers(b, 0, None, Seq::empty(), 0)
}

proof fn lemma_spec_headers_grow(
    b: Seq<u8>,
    pos: int,
    prev: Option<XLogRecordBlockHeader>,
    hs: Seq<XLogRecordBlockHeader>,
    total: int,
)
    requires
        0 <= pos,
        0 <= total,
    ensures
        spec_headers(b, pos, prev, hs, total) matches Some((_, end, t)) ==> pos <= end && total <= t,
    decreases b.len() - pos,
{
    if !(pos < 0 || b.len() - pos <= total) {
        let id = b[pos];
        if is_data_block_id(id) {
            match spec_data_header(b, pos, prev) {
                Some((h, next)) => {
                    if !(next <= pos || declared_len(h) > b.len() - next - total) {
                        lemma_spec_headers_grow(b, next, Some(h), hs.push(h), total + declared_len(h));
                    }
                },
                None => {},
            }
        } else if id == XLR_BLOCK_ID_TOPLEVEL_XID || id == XLR_BLOCK_ID_ORIGIN {
            let w = if id == XLR_BLOCK_ID_TOPLEVEL_XID {
                5int
            } else {
                3int
            };
            if !(pos + w > b.len() || total > b.len() - pos - w) {
                lemma_spec_headers_grow(b, pos + w, prev, hs, total);
            }
        }
    }
}

/// The payloads of a body's headers end no earlier than its start.
pub(crate) proof fn lemma_payloads_end_nonneg(b: Seq<u8>)
    ensures
        0 <= payloads_end(b),
{
    lemma_spec_headers_grow(b, 0, None, Seq::empty(), 0);
}

/// Where the payloads that the headers of body `b` announce end.
pub open spec fn payloads_end(b: Seq<u8>) -> int {
    match body_headers(b) {
        Some((_, end, total)) => end + total,
        None => b.len() as int,
    }
}

/// The first data block reference of body `b`, from position `pos` on, whose
/// id does not exceed the previous data block reference's id: the two ids. It
/// is looked for among the headers that decode before it, as `spec_headers`
/// reads them.
pub open spec fn order_violation(
    b: Seq<u8>,
    pos: int,
    prev: Option<XLogRecordBlockHeader>,
    hs: Seq<XLogRecordBlockHeader>,
    total: int,
) -> Option<(u8, u8)>
    decreases b.len() - pos,
{
    if pos < 0 || b.len() - pos <= total {
        None
    } else {
        let id = b[pos];
        if is_data_block_id(id) {
            if prev is Some && id <= prev.unwrap().id {
                Some((prev.unwrap().id, id))
            } else {
                match spec_data_header(b, pos, prev) {
                    Some((h, next)) => {
                        if next <= pos || declared_len(h) > b.len() - next - total {
                            None
                        } else {
                            order_violation(b, next, Some(h), hs.push(h), total + declared_len(h))
                        }
                    },
                    None => None,
                }
            }
        } else if id == XLR_BLOCK_ID_TOPLEVEL_XID || id == XLR_BLOCK_ID_ORIGIN {
            let w = if id == XLR_BLOCK_ID_TOPLEVEL_XID {
                5int
            } else {
                3int
            };
            if pos + w > b.len() || total > b.len() - pos - w {
                None
            } else {
                order_violation(b, pos + w, prev, hs, total)
            }
        } else {
            None
        }
    }
}

/// Record body `b` decodes: its headers decode and their payloads fill the
/// rest of it exactly.
pub open spec fn body_decodes(b: Seq<u8>) -> bool {
    body_headers(b) matches Some((hs, end, total)) && end + total == b.len()
}

/// Decodes the block references and the main-data header of a record body,
/// then their payloads. The whole of `i` must be consumed.
pub fn parse_blocks(i: &[u8]) -> (r: Result<(&[u8], Vec<XLBData>), XLogError>)
    ensures
        i@.len() == 0 ==> (r matches Ok((rest, bs)) && bs@.len() == 0 && rest@.len() == 0),
        i@.len() > 0 && XLR_MAX_BLOCK_ID <= i@[0] < XLR_BLOCK_ID_TOPLEVEL_XID ==> (r matches Err(
            XLogError::IncorrectId(id),
        ) && id == i@[0]),
        r is Ok <==> body_decodes(i@),
        order_violation(i@, 0, None, Seq::empty(), 0) matches Some((p, c)) ==> (r matches Err(
            XLogError::InvalidBlockId(pp, cc),
        ) && pp == Some(p) && cc == c),
        body_headers(i@) is Some && payloads_end(i@) < i@.len() ==> (r matches Err(
            XLogError::LeftoverBytes(l),
        ) && l@ == i@.subrange(payloads_end(i@), i@.len() as int)),
        r matches Ok((rest, bs)) ==> {
            &&& rest@.len() == 0
            &&& body_headers(i@) matches Some((hs, end, total)) && 0 <= end <= i@.len() && bs@.len() == hs.len() && (forall|k: int|
                0 <= k < hs.len() ==> block_matches(#[trigger] bs@[k], hs[k]))
                && payload_bytes(bs@) == i@.subrange(end, i@.len() as int)
            &&& blocks_well_formed(bs@)
            &&& payload_bytes(bs@).len() <= i@.len()
            &&& payload_bytes(bs@) == i@.subrange(
                i@.len() - payload_bytes(bs@).len(),
                i@.len() as int,
            )
        },
{
    let n = i.len();
    let mut headers: Vec<XLogRecordBlockHeader> = Vec::new();
    let mut previous: Option<XLogRecordBlockHeader> = None;
    let mut pos: usize = 0;
    let mut total: usize = 0;
    let mut done = false;
    while !done && n - pos > total
        invariant
            n == i@.len(),
            pos <= n,
            total <= n - pos,
            total == declared_total(headers@),
            forall|k: int|
                0 <= k < headers@.len() ==> is_data_block_id(#[trigger] headers@[k].id) || (done
                    && k == headers@.len() - 1 && is_main_data_id(headers@[k].id)),
            forall|k: int|
                0 <= k < headers@.len() && is_data_block_id(#[trigger] headers@[k].id) ==> {
                    &&& headers@[k].page_id is Some
                    &&& headers@[k].block_img matches Some(img) ==> img.length < 0x1_0000
                    &&& data_flags_agree(headers@[k].fork_flags, headers@[k].data_length as u16)
                    &&& headers@[k].data_length < 0x1_0000
                    &&& previous matches Some(p) && headers@[k].id <= p.id
                },
            forall|j: int, k: int|
                0 <= j < k < headers@.len() && is_data_block_id(#[trigger] headers@[k].id)
                    ==> #[trigger] headers@[j].id < headers@[k].id,
            previous matches Some(p) ==> p.page_id is Some && is_data_block_id(p.id),
            previous is None ==> forall|k: int|
                0 <= k < headers@.len() ==> !is_data_block_id(#[trigger] headers@[k].id),
            forall|k: int|
                0 <= k < headers@.len() && is_main_data_id(#[trigger] headers@[k].id) ==> {
                    &&& headers@[k].page_id is None
                    &&& headers@[k].block_img is None
                    &&& headers@[k].fork_flags == 0
                },
            pos == 0 ==> headers@.len() == 0 && total == 0 && !done,
            order_violation(i@, 0, None, Seq::empty(), 0) == if done {
                None
            } else {
                order_violation(i@, pos as int, previous, headers@, total as int)
            },
            body_headers(i@) == if done {
                Some((headers@, pos as int, total as int))
            } else {
                spec_headers(i@, pos as int, previous, headers@, total as int)
            },
            pos > 0 ==> !(XLR_MAX_BLOCK_ID <= i@[0] < XLR_BLOCK_ID_TOPLEVEL_XID),
        decreases n - pos,
    {
        let id = read_u8(i, pos);
        if id < XLR_MAX_BLOCK_ID {
            let (h, next) = match parse_data_block_header(i, pos, previous) {
                Ok(v) => v,
                Err(e) => return Err(e),
            };
            let len = h.data_length as usize + match h.block_img {
                Some(img) => img.length as usize,
                None => 0,
            };
            if len > n - next || total > n - next - len {
                return Err(XLogError::InvalidDataLen(n - next, len));
            }
            proof {
                lemma_declared_push(headers@, h);
            }
            headers.push(h);
            previous = Some(h);
            total = total + len;
            pos = next;
        } else if id == XLR_BLOCK_ID_TOPLEVEL_XID {
            if n - pos < 5 {
                return Err(XLogError::Incomplete(5 - (n - pos)));
            }
            if total > n - pos - 5 {
                return Err(XLogError::InvalidDataLen(n - pos - 5, total));
            }
            pos = pos + 5;
        } else if id == XLR_BLOCK_ID_ORIGIN {
            if n - pos < 3 {
                return Err(XLogError::Incomplete(3 - (n - pos)));
            }
            if total > n - pos - 3 {
                return Err(XLogError::InvalidDataLen(n - pos - 3, total));
            }
            pos = pos + 3;
        } else if id == XLR_BLOCK_ID_DATA_SHORT || id == XLR_BLOCK_ID_DATA_LONG {
            let width: usize = if id == XLR_BLOCK_ID_DATA_SHORT { 1 } else { 4 };
            if n - pos - 1 < width {
                return Err(XLogError::Incomplete(width - (n - pos - 1)));
            }
            let data_len: u32 = if id == XLR_BLOCK_ID_DATA_SHORT {
                read_u8(i, pos + 1) as u32
            } else {
                read_u32(i, pos + 1)
            };
            let next = pos + 1 + width;
            if data_len as usize > n - next || total > n - next - data_len as usize {
                return Err(XLogError::InvalidDataLen(n - next, data_len as usize));
            }
            let h = XLogRecordBlockHeader {
                id,
                fork_flags: 0,
                data_length: data_len,
                block_img: None,
                page_id: None,
            };
            proof {
                lemma_declared_push(headers@, h);
            }
            headers.push(h);
            total = total + data_len as usize;
            pos = next;
            done = true;
        } else {
            return Err(XLogError::IncorrectId(id));
        }
    }
    assert(body_headers(i@) == Some((headers@, pos as int, total as int)));
    // The payloads follow all headers, in the order of the headers.
    let start = pos;
    let mut blocks: Vec<XLBData> = Vec::new();
    let mut k: usize = 0;
    while k < headers.len()
        invariant
            n == i@.len(),
            start <= pos <= n,
            start + total <= n,
            total == declared_total(headers@),
            0 <= k <= headers@.len(),
            pos == start + declared_total(headers@.take(k as int)),
            declared_total(headers@.take(k as int)) <= declared_total(headers@),
            blocks@.len() == k,
            forall|j: int| 0 <= j < k ==> block_matches(#[trigger] blocks@[j], headers@[j]),
            payload_bytes(blocks@) == i@.subrange(start as int, pos as int),
        decreases headers@.len() - k,
    {
        let h = headers[k];
        proof {
            lemma_declared_take(headers@, k as int);
            lemma_declared_total_prefix(headers@, k as int + 1);
        }
        let image = match h.block_img {
            Some(img) => {
                let bytes = slice_to_vec(slice_subrange(i, pos, pos + img.length as usize));
                pos = pos + img.length as usize;
                Some(
                    XLBImage {
                        apply_image: img.bimg_info & BKPIMAGE_APPLY != 0,
                        hole_offset: img.hole_offset,
                        hole_length: img.hole_length,
                        bimg_len: img.length,
                        bimg_info: img.bimg_info,
                        bkp_image: bytes,
                    },
                )
            },
            None => None,
        };
        let data = slice_to_vec(slice_subrange(i, pos, pos + h.data_length as usize));
        pos = pos + h.data_length as usize;
        let blk = XLBData {
            blk_id: h.id,
            page_id: h.page_id,
            flags: h.fork_flags & BKPBLOCK_FLAG_MASK,
            image,
            has_data: h.data_length > 0 || h.id >= XLR_BLOCK_ID_DATA_LONG,
            data_len: h.data_length,
            data: Some(data),
        };
        proof {
            lemma_payload_push(blocks@, blk);
            assert(i@.subrange(start as int, pos as int) =~= payload_bytes(blocks@) + block_payload(blk));
        }
        blocks.push(blk);
        k = k + 1;
    }
    assert(headers@.take(headers@.len() as int) =~= headers@);
    if pos < n {
        let leftover = slice_to_vec(slice_subrange(i, pos, n));
        return Err(XLogError::LeftoverBytes(leftover));
    }
    Ok((slice_subrange(i, n, n), blocks))
}

proof fn lemma_declared_total_prefix(hs: Seq<XLogRecordBlockHeader>, k: int)
    requires
        0 <= k <= hs.len(),
        forall|j: int| 0 <= j < hs.len() ==> declared_len(#[trigger] hs[j]) >= 0,
    ensures
        declared_total(hs.take(k)) <= declared_total(hs),
    decreases hs.len() - k,
{
    if k < hs.len() {
        lemma_declared_take(hs, k);
        lemma_declared_total_prefix(hs, k + 1);
    } else {
        assert(hs.take(k) =~= hs);
    }
}


/// What a decoded block holds, as plain values: id, page, flags, data flag,
/// data length, data, and the image's fields and bytes.
pub open spec fn block_view(b: XLBData) -> (
    u8,
    Option<PageId>,
    u8,
    bool,
    u32,
    Option<Seq<u8>>,
    Option<(bool, u16, u16, u16, u8, Seq<u8>)>,
) {
    (
        b.blk_id,
        b.page_id,
        b.flags,
        b.has_data,
        b.data_len,
        match b.data {
            Some(d) => Some(d@),
            None => None,
        },
        match b.image {
            Some(i) => Some(
                (i.apply_image, i.hole_offset, i.hole_length, i.bimg_len, i.bimg_info, i.bkp_image@),
            ),
            None => None,
        },
    )
}

/// Two block lists that match the same headers and have the same payload
/// bytes hold the same blocks.
pub proof fn lemma_blocks_determined(
    bs1: Seq<XLBData>,
    bs2: Seq<XLBData>,
    hs: Seq<XLogRecordBlockHeader>,
)
    requires
        bs1.len() == hs.len(),
        bs2.len() == hs.len(),
        forall|k: int| 0 <= k < hs.len() ==> block_matches(#[trigger] bs1[k], hs[k]),
        forall|k: int| 0 <= k < hs.len() ==> block_matches(#[trigger] bs2[k], hs[k]),
        payload_bytes(bs1) == payload_bytes(bs2),
    ensures
        forall|k: int| 0 <= k < hs.len() ==> block_view(#[trigger] bs1[k]) == block_view(bs2[k]),
    decreases hs.len(),
{
    if hs.len() > 0 {
        let n = hs.len() - 1;
        let f1 = bs1.drop_last();
        let f2 = bs2.drop_last();
        assert(block_matches(bs1[n], hs[n]));
        assert(block_matches(bs2[n], hs[n]));
        let l1 = block_payload(bs1[n]);
        let l2 = block_payload(bs2[n]);
        assert(l1.len() == l2.len());
        let front1 = payload_bytes(f1);
        let front2 = payload_bytes(f2);
        assert(payload_bytes(bs1) == front1 + l1);
        assert(payload_bytes(bs2) == front2 + l2);
        assert(front1 =~= payload_bytes(bs1).subrange(0, front1.len() as int));
        assert(front2 =~= payload_bytes(bs2).subrange(0, front2.len() as int));
        assert(l1 =~= payload_bytes(bs1).subrange(front1.len() as int, payload_bytes(bs1).len() as int));
        assert(l2 =~= payload_bytes(bs2).subrange(front2.len() as int, payload_bytes(bs2).len() as int));
        assert forall|k: int| 0 <= k < n implies block_matches(#[trigger] f1[k], hs.drop_last()[k])
            && block_matches(f2[k], hs.drop_last()[k]) by {
            assert(f1[k] == bs1[k]);
            assert(f2[k] == bs2[k]);
        }
        lemma_blocks_determined(f1, f2, hs.drop_last());
        let i1 = match bs1[n].image {
            Some(img) => img.bkp_image@,
            None => Seq::<u8>::empty(),
        };
        let i2 = match bs2[n].image {
            Some(img) => img.bkp_image@,
            None => Seq::<u8>::empty(),
        };
        assert(i1.len() == i2.len());
        assert(i1 =~= l1.subrange(0, i1.len() as int));
        assert(i2 =~= l2.subrange(0, i2.len() as int));
        assert(bs1[n].data.unwrap()@ =~= l1.subrange(i1.len() as int, l1.len() as int));
        assert(bs2[n].data.unwrap()@ =~= l2.subrange(i2.len() as int, l2.len() as int));
        assert(block_view(bs1[n]) == block_view(bs2[n]));
        assert forall|k: int| 0 <= k < hs.len() implies block_view(#[trigger] bs1[k]) == block_view(
            bs2[k],
        ) by {
            if k < n {
                assert(f1[k] == bs1[k]);
                assert(f2[k] == bs2[k]);
            }
        }
    }
}

} // verus!
