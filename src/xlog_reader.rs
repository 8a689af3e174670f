//! Segment names, start positions, and the page-by-page record decoder that
//! joins records spanning page boundaries.
use vstd::prelude::*;

use vstd::string::StringSliceAdditionalSpecFns;

use crate::error::XLogError;
use crate::framing::{le_u32_at, read_u32, record_padding};
use crate::hex::{hex_u32, parse_hex_u32};
use crate::xlog_page::{decoded_header, header_decodes, parse_xlog_page_header, skip_tail, tail_end};
use crate::xlog_record::{
    ends_records, parse_xlog_record, parse_xlog_records, record_decoded_from, record_decodes,
    records_decoded_from, records_end, records_ok, records_span, padded_len, XLogRecord,
};

verus! {

pub type TimelineID = u32;

/// Timeline, log id and segment id of a segment, as its name gives them.
#[derive(Clone, Copy, Debug, PartialEq, Eq, Structural)]
pub struct XLogFilePos {
    pub tli: u32,
    pub log: u32,
    pub seg: u32,
}

/// Why a segment name was refused.
#[derive(Clone, Copy, Debug, PartialEq, Eq, Structural)]
pub enum FilenameError {
    /// the name is shorter than 24 bytes; its length
    TooShort(usize),
    /// one of the three 8-digit fields is not hexadecimal; its starting byte
    InvalidHex(usize),
}

impl XLogFilePos {
    pub open spec fn spec_rec_ptr(&self, wal_seg_size: u64) -> int {
        self.log * wal_seg_size + self.seg
    }

    /// Starting position of the segment: `log * wal_seg_size + seg`.
    pub fn get_xlog_rec_ptr(&self, wal_seg_size: u64) -> (r: u64)
        requires
            self.spec_rec_ptr(wal_seg_size) <= u64::MAX,
        ensures
            r == self.spec_rec_ptr(wal_seg_size),
    {
        proof {
            vstd::arithmetic::mul::lemma_mul_upper_bound(
                self.log as int,
                u32::MAX as int,
                wal_seg_size as int,
                wal_seg_size as int,
            );
        }
        self.log as u64 * wal_seg_size + self.seg as u64
    }
}

/// Parses a segment name `TTTTTTTTLLLLLLLLSSSSSSSS` (hexadecimal timeline,
/// log id and segment id); bytes after the first 24 are not read.
pub fn parse_filename(fname: &str) -> (r: Result<XLogFilePos, FilenameError>)
    ensures
        ({
            let b = fname.spec_bytes();
            if b.len() < 24 {
                r == Err::<XLogFilePos, FilenameError>(FilenameError::TooShort(b.len() as usize))
            } else if hex_u32(b.subrange(0, 8)) is None {
                r == Err::<XLogFilePos, FilenameError>(FilenameError::InvalidHex(0))
            } else if hex_u32(b.subrange(8, 16)) is None {
                r == Err::<XLogFilePos, FilenameError>(FilenameError::InvalidHex(8))
            } else if hex_u32(b.subrange(16, 24)) is None {
                r == Err::<XLogFilePos, FilenameError>(FilenameError::InvalidHex(16))
            } else {
                r == Ok::<XLogFilePos, FilenameError>(
                    XLogFilePos {
                        tli: hex_u32(b.subrange(0, 8)).unwrap(),
                        log: hex_u32(b.subrange(8, 16)).unwrap(),
                        seg: hex_u32(b.subrange(16, 24)).unwrap(),
                    },
                )
            }
        }),
{
    let b = fname.as_bytes();
    if b.len() < 24 {
        return Err(FilenameError::TooShort(b.len()));
    }
    let tli = match parse_hex_u32(b, 0, 8) {
        Some(v) => v,
        None => return Err(FilenameError::InvalidHex(0)),
    };
    let log = match parse_hex_u32(b, 8, 16) {
        Some(v) => v,
        None => return Err(FilenameError::InvalidHex(8)),
    };
    let seg = match parse_hex_u32(b, 16, 24) {
        Some(v) => v,
        None => return Err(FilenameError::InvalidHex(16)),
    };
    Ok(XLogFilePos { tli, log, seg })
}


/// Size of a WAL page in bytes.
pub const XLOG_BLCKSZ: usize = 8192;

/// Where the payload of a page begins: after its header, of 40 bytes when
/// long and 20 when short.
pub open spec fn payload_start(page: Seq<u8>) -> int {
    if crate::xlog_page::info_is_long(crate::framing::le_u16_at(page, 2)) {
        40
    } else {
        20
    }
}

/// Appends `b[start..end]` to `v`.
fn append_bytes(v: &mut Vec<u8>, b: &[u8], start: usize, end: usize)
    requires
        start <= end <= b@.len(),
    ensures
        final(v)@ == old(v)@ + b@.subrange(start as int, end as int),
{
    let mut k = start;
    while k < end
        invariant
            start <= k <= end <= b@.len(),
            v@ == old(v)@ + b@.subrange(start as int, k as int),
        decreases end - k,
    {
        v.push(b[k]);
        assert(b@.subrange(start as int, k + 1) =~= b@.subrange(start as int, k as int).push(
            b@[k as int],
        ));
        k = k + 1;
    }
}

/// Decodes a log page by page, joining records that cross page boundaries.
pub struct XLogDecoder {
    /// head of a record whose remainder lies on the following pages
    carry: Vec<u8>,
    /// number of bytes of that record still to come
    missing: usize,
    /// whether a page has been decoded yet
    started: bool,
}

impl XLogDecoder {
    /// The bytes held of a record that continues on the next page.
    pub closed spec fn carried(&self) -> Seq<u8> {
        self.carry@
    }

    /// The number of bytes of that record still to come; zero when none is carried.
    pub closed spec fn missing_len(&self) -> nat {
        self.missing as nat
    }

    /// Whether a page has been decoded; the first page must carry a long header.
    pub closed spec fn has_started(&self) -> bool {
        self.started
    }

    /// A carried head holds at least the total length of its record, which is
    /// the head's length plus the bytes still to come.
    pub closed spec fn wf(&self) -> bool {
        &&& (self.carry@.len() == 0 <==> self.missing == 0)
        &&& self.carry@.len() > 0 ==> self.carry@.len() >= 4 && le_u32_at(self.carry@, 0)
            == self.carry@.len() + self.missing
    }

    pub fn new() -> (r: XLogDecoder)
        ensures
            r.wf(),
            r.carried().len() == 0,
            r.missing_len() == 0,
            !r.has_started(),
    {
        XLogDecoder { carry: Vec::new(), missing: 0, started: false }
    }

    /// Whether the log may end here: no record is waiting for its remainder.
    pub fn finish(&self) -> (r: Result<(), XLogError>)
        requires
            self.wf(),
        ensures
            self.missing_len() == 0 <==> r is Ok,
            r matches Err(XLogError::Incomplete(n)) ==> n == self.missing_len(),
    {
        if self.missing == 0 {
            Ok(())
        } else {
            Err(XLogError::Incomplete(self.missing))
        }
    }

    /// Decodes one 8 KiB page and returns the records completed on it, in order.
    /// A record that the page's header announces as continued is joined with
    /// the head carried from the previous pages; a record that runs past the
    /// end of the page is carried to the next.
    #[verifier::rlimit(40)]
    pub fn decode_page(&mut self, page: &[u8]) -> (r: Result<Vec<XLogRecord>, XLogError>)
        requires
            old(self).wf(),
            page@.len() == XLOG_BLCKSZ,
        ensures
            final(self).wf(),
            r is Ok ==> header_decodes(page@),
            r is Ok ==> step_accounts(
                page@,
                old(self).carried(),
                old(self).missing_len() as int,
                r->Ok_0@,
                final(self).carried(),
            ),
            r is Ok <==> page_step_ok(
                page@,
                old(self).carried(),
                old(self).missing_len() as int,
                old(self).has_started(),
            ),
            r is Err ==> *final(self) == *old(self),
            r is Ok ==> final(self).has_started(),
            r is Ok && !old(self).has_started() ==> crate::xlog_page::info_is_long(
                crate::framing::le_u16_at(page@, 2),
            ),
            // a carried record is completed with the continuation at the front of the payload
            r is Ok && old(self).missing_len() > 0 && old(self).missing_len()
                <= XLOG_BLCKSZ - payload_start(page@) ==> {
                let tot = le_u32_at(old(self).carried(), 0);
                let ps = payload_start(page@);
                &&& r->Ok_0@.len() >= 1
                &&& r->Ok_0@[0].header.xl_tot_len == old(self).carried().len() + old(self).missing_len()
                &&& record_decoded_from(
                    old(self).carried() + page@.subrange(
                        ps,
                        ps + old(self).missing_len() + record_padding(tot as int),
                    ),
                    r->Ok_0@[0],
                )
            },
            // a carried record that needs more than this page's payload stays carried
            r is Ok && old(self).missing_len() > XLOG_BLCKSZ - payload_start(page@)
                ==> {
                &&& r->Ok_0@.len() == 0
                &&& final(self).carried() == old(self).carried() + page@.subrange(
                    payload_start(page@),
                    XLOG_BLCKSZ as int,
                )
                &&& final(self).missing_len() == old(self).missing_len() - (XLOG_BLCKSZ
                    - payload_start(page@))
            },
            // the records that begin on the page follow, each where the previous one ends
            r is Ok && old(self).missing_len() <= XLOG_BLCKSZ - payload_start(page@) ==> ({
                let start = records_start(page@, old(self).carried(), old(self).missing_len() as int);
                let first = if old(self).missing_len() > 0 {
                    1int
                } else {
                    0int
                };
                &&& start <= XLOG_BLCKSZ
                &&& records_decoded_from(
                    page@.subrange(start, XLOG_BLCKSZ as int),
                    r->Ok_0@.subrange(first, r->Ok_0@.len() as int),
                )
            }),
            // every byte of the payload is accounted for when a record is carried
            r is Ok && old(self).missing_len() <= XLOG_BLCKSZ - payload_start(page@)
                && final(self).missing_len() > 0 ==> records_start(
                page@,
                old(self).carried(),
                old(self).missing_len() as int,
            ) + records_span(r->Ok_0@.subrange(
                if old(self).missing_len() > 0 {
                    1int
                } else {
                    0int
                },
                r->Ok_0@.len() as int,
            )) + final(self).carried().len() == XLOG_BLCKSZ,
            // a record begun on this page and not finished is carried
            r is Ok && old(self).missing_len() <= XLOG_BLCKSZ - payload_start(page@)
                && final(self).missing_len() > 0 ==> final(self).carried() == page@.subrange(
                XLOG_BLCKSZ - final(self).carried().len(),
                XLOG_BLCKSZ as int,
            ),
    {
        let ghost c0 = self.carry@;
        let ghost m0 = self.missing as int;
        let (_, header) = match parse_xlog_page_header(page) {
            Ok(v) => v,
            Err(e) => return Err(e),
        };
        let long = header.is_long();
        if !self.started && !long {
            return Err(XLogError::IncorrectPageType);
        }
        let ps: usize = if long { 40 } else { 20 };
        let rem = header.standard().xlp_rem_len as usize;
        let mut records: Vec<XLogRecord> = Vec::new();
        let cursor: usize;
        if self.missing > 0 {
            if rem != self.missing {
                return Err(XLogError::InvalidRecord("continuation length does not match".to_owned()));
            }
            if rem > XLOG_BLCKSZ - ps {
                append_bytes(&mut self.carry, page, ps, XLOG_BLCKSZ);
                self.missing = self.missing - (XLOG_BLCKSZ - ps);
                self.started = true;
                return Ok(records);
            }
            let (rec, after) = match join_continuation(&self.carry, page, ps, rem) {
                Ok(v) => v,
                Err(e) => return Err(e),
            };
            records.push(rec);
            cursor = after;
        } else {
            cursor = skip_tail(ps, header.standard().xlp_rem_len, XLOG_BLCKSZ);
        }
        let payload = vstd::slice::slice_subrange(page, cursor, XLOG_BLCKSZ);
        let (rest, mut recs) = match parse_xlog_records(payload) {
            Ok(v) => v,
            Err(e) => return Err(e),
        };
        proof {
            let span = crate::xlog_record::records_span(recs@);
            assert(payload@ == page@.subrange(cursor as int, XLOG_BLCKSZ as int));
            assert(rest@.len() == payload@.len() - span);
            assert(rest@ =~= page@.subrange(cursor + span, XLOG_BLCKSZ as int));
        }
        let ghost before = records@;
        let ghost page_recs = recs@;
        records.append(&mut recs);
        assert(records@.subrange(before.len() as int, records@.len() as int) =~= page_recs);
        assert(records@ =~= before + page_recs);
        let (carry, missing) = match carry_partial(rest) {
            Ok(v) => v,
            Err(e) => return Err(e),
        };
        proof {
            lemma_step_accounts(page@, c0, m0, records@, before, page_recs, carry@, cursor as int);
        }
        self.carry = carry;
        self.missing = missing;
        self.started = true;
        Ok(records)
    }
}

/// Joins the head `carry` of a record with the `rem` bytes of its remainder at
/// `page[ps..]`, followed by its padding, and decodes the result. Returns the
/// record and the position after its padding.
fn join_continuation(carry: &Vec<u8>, page: &[u8], ps: usize, rem: usize) -> (r: Result<
    (XLogRecord, usize),
    XLogError,
>)
    requires
        carry@.len() >= 4,
        le_u32_at(carry@, 0) == carry@.len() + rem,
        ps + rem <= page@.len(),
        page@.len() == XLOG_BLCKSZ,
    ensures
        r is Ok <==> ({
            let pad = record_padding(le_u32_at(carry@, 0) as int);
            ps + rem + pad <= XLOG_BLCKSZ && record_decodes(
                carry@ + page@.subrange(ps as int, ps + rem + pad),
            )
        }),
        r matches Ok((rec, after)) ==> {
            let tot = le_u32_at(carry@, 0);
            &&& after == ps + rem + record_padding(tot as int) <= XLOG_BLCKSZ
            &&& rec.header.xl_tot_len == tot
            &&& record_decoded_from(
                carry@ + page@.subrange(ps as int, ps + rem + record_padding(tot as int)),
                rec,
            )
        },
{
    let tot = read_u32(carry.as_slice(), 0) as usize;
    let pad: usize = if tot % 8 == 0 { 0 } else { 8 - tot % 8 };
    if pad > XLOG_BLCKSZ - ps - rem {
        return Err(XLogError::Incomplete(pad - (XLOG_BLCKSZ - ps - rem)));
    }
    let mut joined = carry.clone();
    append_bytes(&mut joined, page, ps, ps + rem + pad);
    assert(joined@.subrange(0, 4) =~= carry@.subrange(0, 4));
    assert(le_u32_at(joined@, 0) == le_u32_at(carry@, 0));
    match parse_xlog_record(joined.as_slice()) {
        Ok((_, rec)) => Ok((rec, ps + rem + pad)),
        Err(e) => Err(e),
    }
}

/// Where the records that begin on `page` start, when the decoder carries
/// `carried` with `missing` bytes to come, no more than the page's payload.
pub open spec fn records_start(page: Seq<u8>, carried: Seq<u8>, missing: int) -> int {
    let ps = payload_start(page);
    if missing > 0 {
        ps + missing + record_padding(le_u32_at(carried, 0) as int)
    } else {
        tail_end(ps, decoded_header(page).spec_std().xlp_rem_len as int, XLOG_BLCKSZ as int)
    }
}

/// Payload bytes of `page` that no record holds: the skipped tail of a record
/// whose head is not part of the log, and what follows the page's last
/// record when nothing is carried to the next page. `carried` and `missing`
/// describe the decoder before the page, `carried2` after it.
pub open spec fn step_gap(page: Seq<u8>, carried: Seq<u8>, missing: int, carried2: Seq<u8>) -> int {
    let ps = payload_start(page);
    if missing > XLOG_BLCKSZ - ps {
        0
    } else {
        let start = records_start(page, carried, missing);
        let joined = if missing > 0 {
            missing + record_padding(le_u32_at(carried, 0) as int)
        } else {
            0
        };
        (start - ps - joined) + (XLOG_BLCKSZ - start - records_end(
            page.subrange(start, XLOG_BLCKSZ as int),
        ) - carried2.len())
    }
}

/// Every payload byte of `page` is accounted for: the bytes carried in and the
/// payload equal the bytes of the returned records, those carried out, and
/// the gap.
pub open spec fn step_accounts(
    page: Seq<u8>,
    carried: Seq<u8>,
    missing: int,
    recs: Seq<XLogRecord>,
    carried2: Seq<u8>,
) -> bool {
    &&& step_gap(page, carried, missing, carried2) >= 0
    &&& records_span(recs) + carried2.len() + step_gap(page, carried, missing, carried2)
        == carried.len() + XLOG_BLCKSZ - payload_start(page)
}

/// Bytes of the records returned for the first `n` pages of a run.
pub open spec fn run_records_span(recs: Seq<Seq<XLogRecord>>, n: int) -> int
    decreases n,
{
    if n <= 0 {
        0
    } else {
        run_records_span(recs, n - 1) + records_span(recs[n - 1])
    }
}

/// Payload bytes of the first `n` pages of a run: each page less its header.
pub open spec fn run_payload(pages: Seq<Seq<u8>>, n: int) -> int
    decreases n,
{
    if n <= 0 {
        0
    } else {
        run_payload(pages, n - 1) + XLOG_BLCKSZ - payload_start(pages[n - 1])
    }
}

/// Gaps of the first `n` pages of a run decoded one after another.
pub open spec fn run_gaps(pages: Seq<Seq<u8>>, carried: Seq<Seq<u8>>, missing: Seq<int>, n: int) -> int
    decreases n,
{
    if n <= 0 {
        0
    } else {
        run_gaps(pages, carried, missing, n - 1) + step_gap(
            pages[n - 1],
            carried[n - 1],
            missing[n - 1],
            carried[n],
        )
    }
}

/// Over the first `n` pages of a run decoded one after another, starting
/// with the decoder state `carried[0]` and ending with `carried[n]`, the
/// records returned take the pages' payloads (each page less its header) plus
/// what was carried in, less what is carried out and less the gaps. So in a
/// log decoded from its first page, with no record left over at the end and
/// no unused bytes, the records' total lengths with padding add up to the
/// size of the pages less their headers.
pub proof fn lemma_run_accounting(
    pages: Seq<Seq<u8>>,
    carried: Seq<Seq<u8>>,
    missing: Seq<int>,
    recs: Seq<Seq<XLogRecord>>,
    n: int,
)
    requires
        0 <= n <= pages.len(),
        carried.len() == pages.len() + 1,
        missing.len() == pages.len() + 1,
        recs.len() == pages.len(),
        forall|i: int|
            0 <= i < pages.len() ==> step_accounts(
                #[trigger] pages[i],
                carried[i],
                missing[i],
                recs[i],
                carried[i + 1],
            ),
    ensures
        run_records_span(recs, n) + carried[n].len() + run_gaps(pages, carried, missing, n)
            == carried[0].len() + run_payload(pages, n),
    decreases n,
{
    if n > 0 {
        lemma_run_accounting(pages, carried, missing, recs, n - 1);
        assert(step_accounts(pages[n - 1], carried[n - 1], missing[n - 1], recs[n - 1], carried[n]));
    }
}

proof fn lemma_step_accounts(
    page: Seq<u8>,
    c: Seq<u8>,
    m: int,
    records: Seq<XLogRecord>,
    before: Seq<XLogRecord>,
    page_recs: Seq<XLogRecord>,
    c2: Seq<u8>,
    cursor: int,
)
    requires
        0 <= m <= XLOG_BLCKSZ - payload_start(page),
        cursor == records_start(page, c, m),
        payload_start(page) <= cursor,
        m == 0 ==> c.len() == 0 && before.len() == 0,
        m > 0 ==> before.len() == 1 && padded_len(before[0].header.xl_tot_len) == c.len() + m
            + record_padding(le_u32_at(c, 0) as int),
        records == before + page_recs,
        records_span(page_recs) == records_end(page.subrange(cursor, XLOG_BLCKSZ as int)),
        cursor + records_end(page.subrange(cursor, XLOG_BLCKSZ as int)) + c2.len() <= XLOG_BLCKSZ,
        c2.len() == 0 || cursor + records_end(page.subrange(cursor, XLOG_BLCKSZ as int)) + c2.len()
            == XLOG_BLCKSZ,
    ensures
        step_accounts(page, c, m, records, c2),
{
    crate::xlog_record::lemma_span_concat(before, page_recs);
    let ps = payload_start(page);
    let e = records_end(page.subrange(cursor, XLOG_BLCKSZ as int));
    if before.len() > 0 {
        assert(before.drop_last() =~= Seq::<XLogRecord>::empty());
        assert(records_span(Seq::<XLogRecord>::empty()) == 0);
        assert(records_span(before) == c.len() + m + record_padding(le_u32_at(c, 0) as int));
        assert(cursor == ps + m + record_padding(le_u32_at(c, 0) as int));
    } else {
        assert(before =~= Seq::<XLogRecord>::empty());
        assert(records_span(before) == 0);
    }
    assert(records_span(records) == records_span(before) + e);
    assert(step_gap(page, c, m, c2) == (if m > 0 { 0 } else { cursor - ps }) + (XLOG_BLCKSZ - cursor
        - e - c2.len()));
}

/// The end `rest` of a page's records is empty, begins with a zero total
/// length, or holds the front of a record, its total length included.
pub open spec fn partial_ok(rest: Seq<u8>) -> bool {
    rest.len() == 0 || (rest.len() >= 4 && (le_u32_at(rest, 0) == 0 || le_u32_at(rest, 0)
        > rest.len()))
}

/// The carried head joins with the `missing` bytes at the front of `page`'s
/// payload, and the record's padding, into a record that decodes.
pub open spec fn join_ok(page: Seq<u8>, carried: Seq<u8>, missing: int) -> bool {
    let ps = payload_start(page);
    let pad = record_padding(le_u32_at(carried, 0) as int);
    ps + missing + pad <= XLOG_BLCKSZ && record_decodes(
        carried + page.subrange(ps, ps + missing + pad),
    )
}

/// Decoding `page` succeeds for a decoder that carries `carried`, with
/// `missing` bytes to come, and has or has not `started`: the header decodes;
/// the first page is long; a carried record's continuation length matches;
/// and, unless the carried record needs the whole payload, the joined record,
/// then the records that begin on the page, decode, up to a partial tail.
pub open spec fn page_step_ok(page: Seq<u8>, carried: Seq<u8>, missing: int, started: bool) -> bool {
    let ps = payload_start(page);
    let start = records_start(page, carried, missing);
    &&& header_decodes(page)
    &&& started || crate::xlog_page::info_is_long(crate::framing::le_u16_at(page, 2))
    &&& missing > 0 ==> decoded_header(page).spec_std().xlp_rem_len == missing
    &&& missing <= XLOG_BLCKSZ - ps ==> {
        &&& missing > 0 ==> join_ok(page, carried, missing)
        &&& records_ok(page.subrange(start, XLOG_BLCKSZ as int))
        &&& partial_ok(
            page.subrange(
                start + records_end(page.subrange(start, XLOG_BLCKSZ as int)),
                XLOG_BLCKSZ as int,
            ),
        )
    }
}

/// What is carried to the next page when `rest` (the end of a page) holds a
/// record only in part: its bytes and the number still to come.
fn carry_partial(rest: &[u8]) -> (r: Result<(Vec<u8>, usize), XLogError>)
    requires
        ends_records(rest@),
        rest@.len() <= XLOG_BLCKSZ,
    ensures
        r is Ok <==> partial_ok(rest@),
        r matches Ok((carry, missing)) ==> {
            &&& carry@.len() == 0 <==> missing == 0
            &&& carry@.len() > 0 ==> carry@ == rest@ && carry@.len() >= 4 && le_u32_at(carry@, 0)
                == carry@.len() + missing
        },
{
    let n = rest.len();
    if n == 0 || (n >= 4 && read_u32(rest, 0) == 0) {
        return Ok((Vec::new(), 0));
    }
    if n < 4 {
        return Err(XLogError::InvalidRecord("record header split before its length".to_owned()));
    }
    let tot = read_u32(rest, 0) as usize;
    if tot <= n {
        return Err(XLogError::InvalidRecord("record shorter than its header".to_owned()));
    }
    let mut carry: Vec<u8> = Vec::new();
    append_bytes(&mut carry, rest, 0, n);
    assert(carry@ =~= rest@);
    Ok((carry, tot - n))
}

} // verus!
