//! WAL records: the fixed header, the block references and the operation.
use vstd::prelude::*;
use vstd::slice::slice_subrange;
use vstd::slice::slice_to_vec;

use crate::error::XLogError;
use crate::framing::{
    all_zero, consume_padding, is_zero_range, le_u32_at, le_u64_at, read_u32, read_u64, read_u8,
    record_padding,
};
use crate::heap::{
    delete_of, heap_op_code, insert_of, parse_heap_operation, update_of, HeapOperation,
};
use crate::xlog_block::{
    block_matches, block_view, blocks_well_formed, body_decodes, lemma_blocks_determined, payloads_end, body_headers, is_main_data_id, parse_blocks,
    payload_bytes, XLBData, XLogRecordBlockHeader,
    XLR_BLOCK_ID_DATA_LONG,
};

verus! {

pub const XLOG_RECORD_HEADER_SIZE: u32 = 24;

/// Resource managers, the subsystems that write records.
#[derive(Clone, Copy, Debug, PartialEq, Eq, Structural)]
pub enum RmgrId {
    Xlog,
    Transaction,
    Storage,
    Clog,
    Database,
    Tablespace,
    MultiXact,
    RelMap,
    Standby,
    Heap,
    Heap2,
    Btree,
    Hash,
    Gin,
    Gist,
    Sequence,
    Spgist,
    Brin,
    CommitTs,
    ReplicationOrigin,
    Generic,
    LogicalMsg,
}

/// The resource manager that the numeric id `b` names, if any.
pub open spec fn rmgr_of(b: u8) -> Option<RmgrId> {
    if b == 0 {
        Some(RmgrId::Xlog)
    } else if b == 1 {
        Some(RmgrId::Transaction)
    } else if b == 2 {
        Some(RmgrId::Storage)
    } else if b == 3 {
        Some(RmgrId::Clog)
    } else if b == 4 {
        Some(RmgrId::Database)
    } else if b == 5 {
        Some(RmgrId::Tablespace)
    } else if b == 6 {
        Some(RmgrId::MultiXact)
    } else if b == 7 {
        Some(RmgrId::RelMap)
    } else if b == 8 {
        Some(RmgrId::Standby)
    } else if b == 9 {
        Some(RmgrId::Heap2)
    } else if b == 10 {
        Some(RmgrId::Heap)
    } else if b == 11 {
        Some(RmgrId::Btree)
    } else if b == 12 {
        Some(RmgrId::Hash)
    } else if b == 13 {
        Some(RmgrId::Gin)
    } else if b == 14 {
        Some(RmgrId::Gist)
    } else if b == 15 {
        Some(RmgrId::Sequence)
    } else if b == 16 {
        Some(RmgrId::Spgist)
    } else if b == 17 {
        Some(RmgrId::Brin)
    } else if b == 18 {
        Some(RmgrId::CommitTs)
    } else if b == 19 {
        Some(RmgrId::ReplicationOrigin)
    } else if b == 20 {
        Some(RmgrId::Generic)
    } else if b == 21 {
        Some(RmgrId::LogicalMsg)
    } else {
        None
    }
}

impl RmgrId {
    /// Decodes a numeric resource-manager id.
    pub fn from_id(b: u8) -> (r: Option<RmgrId>)
        ensures
            r == rmgr_of(b),
    {
        match b {
            0 => Some(RmgrId::Xlog),
            1 => Some(RmgrId::Transaction),
            2 => Some(RmgrId::Storage),
            3 => Some(RmgrId::Clog),
            4 => Some(RmgrId::Database),
            5 => Some(RmgrId::Tablespace),
            6 => Some(RmgrId::MultiXact),
            7 => Some(RmgrId::RelMap),
            8 => Some(RmgrId::Standby),
            9 => Some(RmgrId::Heap2),
            10 => Some(RmgrId::Heap),
            11 => Some(RmgrId::Btree),
            12 => Some(RmgrId::Hash),
            13 => Some(RmgrId::Gin),
            14 => Some(RmgrId::Gist),
            15 => Some(RmgrId::Sequence),
            16 => Some(RmgrId::Spgist),
            17 => Some(RmgrId::Brin),
            18 => Some(RmgrId::CommitTs),
            19 => Some(RmgrId::ReplicationOrigin),
            20 => Some(RmgrId::Generic),
            21 => Some(RmgrId::LogicalMsg),
            _ => None,
        }
    }
}

/// What a record does, by resource manager; only Heap records are decoded
/// to the operation level.
#[derive(Clone, Copy, Debug, PartialEq, Eq, Structural)]
pub enum Operation {
    Xlog,
    Transaction,
    Storage,
    Clog,
    Database,
    Tablespace,
    MultiXact,
    RelMap,
    Standby,
    Heap(HeapOperation),
    Heap2,
    Btree,
    Hash,
    Gin,
    Gist,
    Sequence,
    Spgist,
    Brin,
    CommitTs,
    ReplicationOrigin,
    Generic,
    LogicalMsg,
}

/// The undecoded operation of a record of resource manager `rmid`, which is not Heap.
pub open spec fn plain_operation(rmid: RmgrId) -> Operation {
    match rmid {
        RmgrId::Xlog => Operation::Xlog,
        RmgrId::Transaction => Operation::Transaction,
        RmgrId::Storage => Operation::Storage,
        RmgrId::Clog => Operation::Clog,
        RmgrId::Database => Operation::Database,
        RmgrId::Tablespace => Operation::Tablespace,
        RmgrId::MultiXact => Operation::MultiXact,
        RmgrId::RelMap => Operation::RelMap,
        RmgrId::Standby => Operation::Standby,
        RmgrId::Heap2 => Operation::Heap2,
        RmgrId::Btree => Operation::Btree,
        RmgrId::Hash => Operation::Hash,
        RmgrId::Gin => Operation::Gin,
        RmgrId::Gist => Operation::Gist,
        RmgrId::Sequence => Operation::Sequence,
        RmgrId::Spgist => Operation::Spgist,
        RmgrId::Brin => Operation::Brin,
        RmgrId::CommitTs => Operation::CommitTs,
        RmgrId::ReplicationOrigin => Operation::ReplicationOrigin,
        RmgrId::Generic => Operation::Generic,
        RmgrId::LogicalMsg => Operation::LogicalMsg,
        RmgrId::Heap => Operation::Heap(HeapOperation::Placeholder),
    }
}

fn undecoded_operation(rmid: RmgrId) -> (r: Operation)
    ensures
        r == plain_operation(rmid),
{
    match rmid {
        RmgrId::Xlog => Operation::Xlog,
        RmgrId::Transaction => Operation::Transaction,
        RmgrId::Storage => Operation::Storage,
        RmgrId::Clog => Operation::Clog,
        RmgrId::Database => Operation::Database,
        RmgrId::Tablespace => Operation::Tablespace,
        RmgrId::MultiXact => Operation::MultiXact,
        RmgrId::RelMap => Operation::RelMap,
        RmgrId::Standby => Operation::Standby,
        RmgrId::Heap2 => Operation::Heap2,
        RmgrId::Btree => Operation::Btree,
        RmgrId::Hash => Operation::Hash,
        RmgrId::Gin => Operation::Gin,
        RmgrId::Gist => Operation::Gist,
        RmgrId::Sequence => Operation::Sequence,
        RmgrId::Spgist => Operation::Spgist,
        RmgrId::Brin => Operation::Brin,
        RmgrId::CommitTs => Operation::CommitTs,
        RmgrId::ReplicationOrigin => Operation::ReplicationOrigin,
        RmgrId::Generic => Operation::Generic,
        RmgrId::LogicalMsg => Operation::LogicalMsg,
        RmgrId::Heap => Operation::Heap(HeapOperation::Placeholder),
    }
}


#[derive(Clone, Copy, Debug, PartialEq, Eq, Structural)]
pub struct XLogRecordHeader {
    /// total length of the record
    pub xl_tot_len: u32,
    /// transaction id
    pub xl_xid: u32,
    /// position of the previous record
    pub xl_prev: u64,
    /// flag bits
    pub xl_info: u8,
    /// high nibble of `xl_info`, private to the resource manager
    pub rmgr_info: u8,
    pub special_rel_update: bool,
    pub check_consistency: bool,
    /// resource manager of the record
    pub xl_rmid: RmgrId,
    /// checksum of the record
    pub xl_crc: u32,
}

#[derive(Clone, Debug)]
pub struct XLogRecord {
    pub header: XLogRecordHeader,
    pub blocks: Vec<XLBData>,
    pub operation: Operation,
}

/// The record header stored in the first 24 bytes of `b`, whose resource
/// manager id is known.
pub open spec fn header_of(b: Seq<u8>) -> XLogRecordHeader {
    let info = b[16];
    XLogRecordHeader {
        xl_tot_len: le_u32_at(b, 0),
        xl_xid: le_u32_at(b, 4),
        xl_prev: le_u64_at(b, 8),
        xl_info: info,
        rmgr_info: info & 0xf0,
        special_rel_update: info & 0x01 != 0,
        check_consistency: info & 0x02 != 0,
        xl_rmid: rmgr_of(b[17]).unwrap(),
        xl_crc: le_u32_at(b, 20),
    }
}

/// `b` begins with a record header that decodes, followed by the whole record.
pub open spec fn record_header_valid(b: Seq<u8>) -> bool {
    &&& b.len() >= 24
    &&& le_u32_at(b, 0) >= 24
    &&& rmgr_of(b[17]) is Some
    &&& all_zero(b.subrange(18, 20))
    &&& b.len() >= le_u32_at(b, 0)
}

/// Decodes the 24-byte record header at the front of `i`; the whole record must follow.
pub fn parse_xlog_record_header(i: &[u8]) -> (r: Result<(&[u8], XLogRecordHeader), XLogError>)
    ensures
        i@.len() < 24 ==> (r matches Err(XLogError::Incomplete(n)) && n == 24 - i@.len()),
        i@.len() >= 24 && le_u32_at(i@, 0) == 0 ==> r matches Err(XLogError::EmptyRecord),
        i@.len() >= 24 && 0 < le_u32_at(i@, 0) < 24 ==> r matches Err(XLogError::InvalidRecord(_)),
        i@.len() >= 24 && le_u32_at(i@, 0) >= 24 && rmgr_of(i@[17]) is None ==> (r matches Err(
            XLogError::InvalidResourceManager(id),
        ) && id == i@[17]),
        i@.len() >= 24 && le_u32_at(i@, 0) >= 24 && rmgr_of(i@[17]) is Some && !all_zero(
            i@.subrange(18, 20),
        ) ==> r matches Err(XLogError::IncorrectPaddingValue(_)),
        i@.len() >= 24 && le_u32_at(i@, 0) >= 24 && rmgr_of(i@[17]) is Some && all_zero(
            i@.subrange(18, 20),
        ) && i@.len() < le_u32_at(i@, 0) ==> (r matches Err(XLogError::Incomplete(n)) && n
            == le_u32_at(i@, 0) - i@.len()),
        r is Ok <==> record_header_valid(i@),
        r matches Ok((rest, h)) ==> h == header_of(i@) && rest@ == i@.subrange(
            24,
            i@.len() as int,
        ),
{
    let n = i.len();
    if n < 24 {
        return Err(XLogError::Incomplete(24 - n));
    }
    let xl_tot_len = read_u32(i, 0);
    if xl_tot_len == 0 {
        return Err(XLogError::EmptyRecord);
    }
    if xl_tot_len < XLOG_RECORD_HEADER_SIZE {
        return Err(XLogError::InvalidRecord("record shorter than its header".to_owned()));
    }
    let xl_info = read_u8(i, 16);
    let rmid = read_u8(i, 17);
    let xl_rmid = match RmgrId::from_id(rmid) {
        Some(m) => m,
        None => return Err(XLogError::InvalidResourceManager(rmid)),
    };
    if !is_zero_range(i, 18, 20) {
        return Err(XLogError::IncorrectPaddingValue(slice_to_vec(slice_subrange(i, 18, 20))));
    }
    if (n as u64) < xl_tot_len as u64 {
        return Err(XLogError::Incomplete(xl_tot_len as usize - n));
    }
    let header = XLogRecordHeader {
        xl_tot_len,
        xl_xid: read_u32(i, 4),
        xl_prev: read_u64(i, 8),
        xl_info,
        rmgr_info: xl_info & 0xf0,
        special_rel_update: xl_info & 0x01 != 0,
        check_consistency: xl_info & 0x02 != 0,
        xl_rmid,
        xl_crc: read_u32(i, 20),
    };
    Ok((slice_subrange(i, 24, n), header))
}


/// The main data of a block list: the data of its last block when that block
/// is the main data, else nothing.
pub open spec fn main_data(bs: Seq<XLBData>) -> Seq<u8> {
    if bs.len() > 0 && is_main_data_id(bs.last().blk_id) && bs.last().data is Some {
        bs.last().data.unwrap()@
    } else {
        Seq::empty()
    }
}

/// `op` is the Heap operation that main data `m` describes under `rmgr_info`.
pub open spec fn heap_operation_of(rmgr_info: u8, m: Seq<u8>, op: HeapOperation) -> bool {
    let code = heap_op_code(rmgr_info);
    if code == 0 {
        m.len() >= 3 && op == HeapOperation::Insert(insert_of(m))
    } else if code == 1 {
        m.len() >= 8 && op == HeapOperation::Delete(delete_of(m))
    } else if code == 2 {
        m.len() >= 14 && op == HeapOperation::Update(update_of(m))
    } else {
        op == HeapOperation::Placeholder
    }
}

/// `op` is what a record with header `h` and blocks `bs` does.
pub open spec fn operation_of(h: XLogRecordHeader, bs: Seq<XLBData>, op: Operation) -> bool {
    if h.xl_rmid == RmgrId::Heap {
        op matches Operation::Heap(hop) && heap_operation_of(h.rmgr_info, main_data(bs), hop)
    } else {
        op == plain_operation(h.xl_rmid)
    }
}

/// Number of bytes a record of total length `tot_len` occupies with its padding.
pub open spec fn padded_len(tot_len: u32) -> int {
    tot_len + record_padding(tot_len as int)
}

/// A record decoded from `b`: its header, blocks and operation agree with the
/// bytes, and the record with its padding occupies the front of `b`.
#[verifier::opaque]
pub open spec fn record_decoded_from(b: Seq<u8>, rec: XLogRecord) -> bool {
    let tot = rec.header.xl_tot_len as int;
    &&& record_header_valid(b)
    &&& rec.header == header_of(b)
    &&& blocks_well_formed(rec.blocks@)
    &&& body_headers(b.subrange(24, tot)) matches Some((hs, end, _)) && rec.blocks@.len()
        == hs.len() && (forall|k: int|
        0 <= k < hs.len() ==> block_matches(#[trigger] rec.blocks@[k], hs[k]))
        && payload_bytes(rec.blocks@) == b.subrange(24 + end, tot)
    &&& payload_bytes(rec.blocks@) == b.subrange(tot - payload_bytes(rec.blocks@).len(), tot)
    &&& operation_of(rec.header, rec.blocks@, rec.operation)
    &&& padded_len(rec.header.xl_tot_len) <= b.len()
    &&& all_zero(b.subrange(tot, padded_len(rec.header.xl_tot_len)))
}

/// The main data of `blocks`, as `main_data` describes it.
fn main_data_of(blocks: &Vec<XLBData>) -> (r: Vec<u8>)
    ensures
        r@ == main_data(blocks@),
{
    let n = blocks.len();
    if n > 0 && blocks[n - 1].blk_id >= XLR_BLOCK_ID_DATA_LONG {
        match &blocks[n - 1].data {
            Some(d) => d.clone(),
            None => Vec::new(),
        }
    } else {
        Vec::new()
    }
}

/// Main data of `len` bytes is long enough for the operation that a record of
/// resource manager `rmid` with `rmgr_info` announces.
pub open spec fn operation_fits(rmid: RmgrId, rmgr_info: u8, len: int) -> bool {
    let code = heap_op_code(rmgr_info);
    rmid == RmgrId::Heap ==> (code == 0 ==> len >= 3) && (code == 1 ==> len >= 8) && (code == 2
        ==> len >= 14)
}

/// Length of the main data that the headers `hs` announce.
pub open spec fn main_data_len(hs: Seq<XLogRecordBlockHeader>) -> int {
    if hs.len() > 0 && is_main_data_id(hs.last().id) {
        hs.last().data_length as int
    } else {
        0
    }
}

/// `b` begins with a record that decodes: a valid header, a body whose block
/// references decode, main data long enough for a Heap operation, and zero
/// padding up to the next 8-byte boundary.
pub open spec fn record_decodes(b: Seq<u8>) -> bool {
    let tot = le_u32_at(b, 0);
    let body = b.subrange(24, tot as int);
    &&& record_header_valid(b)
    &&& body_decodes(body)
    &&& body_headers(body) matches Some((hs, _, _)) && operation_fits(
        rmgr_of(b[17]).unwrap(),
        b[16] & 0xf0,
        main_data_len(hs),
    )
    &&& padded_len(tot) <= b.len()
    &&& all_zero(b.subrange(tot as int, padded_len(tot)))
}

/// Decodes the Heap operation of a record from its main data.
fn decode_operation(header: &XLogRecordHeader, blocks: &Vec<XLBData>) -> (r: Result<Operation, XLogError>)
    ensures
        r matches Ok(op) ==> operation_of(*header, blocks@, op),
        r is Ok <==> operation_fits(header.xl_rmid, header.rmgr_info, main_data(blocks@).len() as int),
{
    if header.xl_rmid != RmgrId::Heap {
        return Ok(undecoded_operation(header.xl_rmid));
    }
    let main = main_data_of(blocks);
    match parse_heap_operation(header.rmgr_info, main.as_slice()) {
        Ok((_, op)) => Ok(Operation::Heap(op)),
        Err(e) => Err(e),
    }
}

/// Decodes the record at the front of `i`: its header, block references and
/// payloads, its operation, and the zero padding that follows it.
pub fn parse_xlog_record(i: &[u8]) -> (r: Result<(&[u8], XLogRecord), XLogError>)
    ensures
        r is Ok <==> record_decodes(i@),
        record_header_valid(i@) && body_headers(i@.subrange(24, le_u32_at(i@, 0) as int)) is Some
            && 24 + payloads_end(i@.subrange(24, le_u32_at(i@, 0) as int)) < le_u32_at(i@, 0) ==> (r matches Err(
            XLogError::LeftoverBytes(l),
        ) && l@ == i@.subrange(
            24 + payloads_end(i@.subrange(24, le_u32_at(i@, 0) as int)),
            le_u32_at(i@, 0) as int,
        )),
        i@.len() < 24 ==> r matches Err(XLogError::Incomplete(_)),
        i@.len() >= 24 && le_u32_at(i@, 0) == 0 ==> r matches Err(XLogError::EmptyRecord),
        r matches Ok((rest, rec)) ==> {
            &&& record_decoded_from(i@, rec)
            &&& rec.header == header_of(i@)
            &&& 24 <= rec.header.xl_tot_len
            &&& padded_len(rec.header.xl_tot_len) <= i@.len()
            &&& rest@ == i@.subrange(padded_len(rec.header.xl_tot_len), i@.len() as int)
        },
{
    let (body_and_rest, header) = match parse_xlog_record_header(i) {
        Ok(v) => v,
        Err(e) => return Err(e),
    };
    let tot = header.xl_tot_len as usize;
    let body = slice_subrange(i, 24, tot);
    assert(body@ =~= i@.subrange(24, tot as int));
    let blocks = match parse_blocks(body) {
        Ok((_, blocks)) => blocks,
        Err(e) => {
            proof {
                let pe = payloads_end(body@);
                crate::xlog_block::lemma_payloads_end_nonneg(body@);
                if pe <= body@.len() {
                    assert(body@.subrange(pe, body@.len() as int) =~= i@.subrange(24 + pe, tot as int));
                }
            }
            return Err(e);
        },
    };
    assert(payloads_end(body@) == body@.len());
    proof {
        let hs = body_headers(body@)->Some_0.0;
        if hs.len() > 0 {
            assert(block_matches(blocks@[hs.len() - 1], hs[hs.len() - 1]));
        }
        assert(main_data(blocks@).len() == main_data_len(hs));
    }
    let operation = match decode_operation(&header, &blocks) {
        Ok(op) => op,
        Err(e) => return Err(e),
    };
    let pad: usize = if tot % 8 == 0 { 0 } else { 8 - tot % 8 };
    let after = slice_subrange(i, tot, i.len());
    let rest = match consume_padding(after, pad) {
        Ok(rest) => rest,
        Err(e) => return Err(e),
    };
    proof {
        reveal(record_decoded_from);
        assert(after@.subrange(0, pad as int) =~= i@.subrange(tot as int, tot + pad));
        assert(rest@ =~= i@.subrange(tot + pad, i@.len() as int));
        let p = payload_bytes(blocks@);
        assert(body@ =~= i@.subrange(24, tot as int));
        assert(p.len() <= body@.len());
        assert(p =~= i@.subrange(tot - p.len(), tot as int));
        let (hs, end, _) = body_headers(body@)->Some_0;
        assert(p =~= i@.subrange(24 + end, tot as int));
    }
    Ok((rest, XLogRecord { header, blocks, operation }))
}


/// Bytes that a sequence of records occupies, padding included.
pub open spec fn records_span(recs: Seq<XLogRecord>) -> int
    decreases recs.len(),
{
    if recs.len() == 0 {
        0
    } else {
        records_span(recs.drop_last()) + padded_len(recs.last().header.xl_tot_len)
    }
}

/// Record `k` of `recs` is decoded from `b` at the position where the
/// previous ones end.
pub open spec fn decoded_at(b: Seq<u8>, recs: Seq<XLogRecord>, k: int) -> bool {
    &&& 0 <= records_span(recs.take(k)) <= b.len()
    &&& record_decoded_from(b.subrange(records_span(recs.take(k)), b.len() as int), recs[k])
}

/// Each record of `recs` is decoded from `b` at the position where the
/// previous ones end.
pub open spec fn records_decoded_from(b: Seq<u8>, recs: Seq<XLogRecord>) -> bool {
    forall|k: int| 0 <= k < recs.len() ==> #[trigger] decoded_at(b, recs, k)
}

proof fn lemma_span_push(recs: Seq<XLogRecord>, rec: XLogRecord)
    ensures
        records_span(recs.push(rec)) == records_span(recs) + padded_len(rec.header.xl_tot_len),
        recs.push(rec).take(recs.len() as int) == recs,
{
    assert(recs.push(rec).drop_last() =~= recs);
    assert(recs.push(rec).take(recs.len() as int) =~= recs);
}

proof fn lemma_decoded_push(b: Seq<u8>, recs: Seq<XLogRecord>, rec: XLogRecord)
    requires
        0 <= records_span(recs) <= b.len(),
        records_decoded_from(b, recs),
        record_decoded_from(b.subrange(records_span(recs), b.len() as int), rec),
    ensures
        records_decoded_from(b, recs.push(rec)),
{
    let new_recs = recs.push(rec);
    assert forall|k: int| 0 <= k < new_recs.len() implies #[trigger] decoded_at(b, new_recs, k) by {
        if k < recs.len() {
            assert(decoded_at(b, recs, k));
            assert(new_recs.take(k) =~= recs.take(k));
            assert(new_recs[k] == recs[k]);
        } else {
            assert(new_recs.take(k) =~= recs);
            assert(new_recs[k] == rec);
        }
    }
}

proof fn lemma_records_push(b: Seq<u8>, recs: Seq<XLogRecord>, rec: XLogRecord, next: Seq<u8>)
    requires
        0 <= records_span(recs) <= b.len(),
        records_decoded_from(b, recs),
        record_decoded_from(b.subrange(records_span(recs), b.len() as int), rec),
        next == b.subrange(records_span(recs), b.len() as int).subrange(
            padded_len(rec.header.xl_tot_len),
            b.len() - records_span(recs),
        ),
        padded_len(rec.header.xl_tot_len) <= b.len() - records_span(recs),
    ensures
        records_decoded_from(b, recs.push(rec)),
        records_span(recs.push(rec)) == records_span(recs) + padded_len(rec.header.xl_tot_len),
        next == b.subrange(records_span(recs.push(rec)), b.len() as int),
{
    lemma_span_push(recs, rec);
    lemma_decoded_push(b, recs, rec);
    assert(next =~= b.subrange(records_span(recs.push(rec)), b.len() as int));
}

/// `b` ends the records of a page: it is empty, begins with a zero total
/// length, or holds a record only in part.
pub open spec fn ends_records(b: Seq<u8>) -> bool {
    ||| b.len() == 0
    ||| b.len() >= 4 && le_u32_at(b, 0) == 0
    ||| b.len() < 24
    ||| le_u32_at(b, 0) > b.len()
}

/// Every record from the front of `b` decodes, one after another, until the
/// bytes end the records (see `ends_records`).
pub open spec fn records_ok(b: Seq<u8>) -> bool
    decreases b.len(),
{
    if ends_records(b) {
        true
    } else if record_decodes(b) {
        records_ok(b.subrange(padded_len(le_u32_at(b, 0)), b.len() as int))
    } else {
        false
    }
}

/// Where the records that decode from the front of `b`, one after another, end.
pub open spec fn records_end(b: Seq<u8>) -> int
    decreases b.len(),
{
    if ends_records(b) || !record_decodes(b) {
        0
    } else {
        padded_len(le_u32_at(b, 0)) + records_end(
            b.subrange(padded_len(le_u32_at(b, 0)), b.len() as int),
        )
    }
}

/// Decodes records one after another from the front of `i`. Decoding stops
/// at the end of `i`, at a record of total length zero (the end of a page's
/// records), or at a record that `i` holds only in part; what is left is
/// returned. Any other framing error is returned.
pub fn parse_xlog_records(i: &[u8]) -> (r: Result<(&[u8], Vec<XLogRecord>), XLogError>)
    ensures
        r matches Ok((rest, recs)) ==> {
            &&& records_decoded_from(i@, recs@)
            &&& 0 <= records_span(recs@) <= i@.len()
            &&& records_span(recs@) + rest@.len() == i@.len()
            &&& rest@ == i@.subrange(records_span(recs@), i@.len() as int)
            &&& ends_records(rest@)
        },
        ends_records(i@) ==> (r matches Ok((rest, recs)) && recs@.len() == 0),
        r is Ok <==> records_ok(i@),
        r matches Ok((_, recs)) ==> records_span(recs@) == records_end(i@),
{
    let mut records: Vec<XLogRecord> = Vec::new();
    let mut rest = i;
    let ghost consumed: int = 0;

    loop
        invariant
            0 <= consumed <= i@.len(),
            consumed == records_span(records@),
            rest@ == i@.subrange(consumed, i@.len() as int),
            records_decoded_from(i@, records@),
            ends_records(i@) ==> records@.len() == 0,
            records_ok(i@) == records_ok(rest@),
            records_end(i@) == consumed + records_end(rest@),
        ensures
            ends_records(rest@),
            records_ok(i@) == records_ok(rest@),
            records_end(i@) == consumed + records_end(rest@),
        decreases rest@.len(),
    {
        let n = rest.len();
        if n == 0 {
            break;
        }
        if n >= 4 && read_u32(rest, 0) == 0 {
            break;
        }
        if n < 24 || read_u32(rest, 0) as usize > n {
            break;
        }
        match parse_xlog_record(rest) {
            Ok((next, rec)) => {
                proof {
                    lemma_records_push(i@, records@, rec, next@);
                    consumed = consumed + padded_len(rec.header.xl_tot_len);
                    assert(next@ =~= rest@.subrange(padded_len(le_u32_at(rest@, 0)), rest@.len() as int));
                }
                records.push(rec);
                rest = next;
            },
            Err(e) => {
                assert(!ends_records(rest@));
                return Err(e);
            },
        }
    }
    Ok((rest, records))
}


/// Two decoded records hold the same values: header, operation and blocks.
pub open spec fn same_record(r1: XLogRecord, r2: XLogRecord) -> bool {
    &&& r1.header == r2.header
    &&& r1.operation == r2.operation
    &&& r1.blocks@.len() == r2.blocks@.len()
    &&& forall|k: int|
        0 <= k < r1.blocks@.len() ==> block_view(#[trigger] r1.blocks@[k]) == block_view(
            r2.blocks@[k],
        )
}

/// Decoding is determined by the bytes: two records decoded from the same
/// bytes are the same record. In particular a record whose head lies on one
/// page and whose tail lies on the next, joined, decodes to the record that
/// the same bytes laid out contiguously decode to.
pub proof fn lemma_record_decoding_unique(b: Seq<u8>, r1: XLogRecord, r2: XLogRecord)
    requires
        record_decoded_from(b, r1),
        record_decoded_from(b, r2),
    ensures
        same_record(r1, r2),
{
    reveal(record_decoded_from);
    let tot = r1.header.xl_tot_len as int;
    let (hs, end, _) = body_headers(b.subrange(24, tot))->Some_0;
    lemma_blocks_determined(r1.blocks@, r2.blocks@, hs);
    let bs1 = r1.blocks@;
    let bs2 = r2.blocks@;
    if bs1.len() > 0 {
        assert(block_view(bs1[bs1.len() - 1]) == block_view(bs2[bs2.len() - 1]));
        assert(bs1[bs1.len() - 1].data is Some);
        assert(bs2[bs2.len() - 1].data is Some);
    }
    assert(main_data(bs1) == main_data(bs2));
    if r1.header.xl_rmid == RmgrId::Heap {
        let h1 = r1.operation->Heap_0;
        let h2 = r2.operation->Heap_0;
        assert(h1 == h2);
    }
}


/// Bytes that two runs of records occupy together.
pub proof fn lemma_span_concat(a: Seq<XLogRecord>, b: Seq<XLogRecord>)
    ensures
        records_span(a + b) == records_span(a) + records_span(b),
    decreases b.len(),
{
    if b.len() == 0 {
        assert(a + b =~= a);
    } else {
        assert((a + b).drop_last() =~= a + b.drop_last());
        lemma_span_concat(a, b.drop_last());
    }
}

} // verus!
