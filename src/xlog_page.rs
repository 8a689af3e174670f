//! WAL page headers, short and long.
use vstd::prelude::*;
use vstd::slice::slice_subrange;

use crate::error::XLogError;
use crate::framing::{
    record_padding,
    all_zero, consume_padding, le_u16_at, le_u32_at, le_u64_at, read_u32, read_u64,
};
use crate::xlog_page_header::{self, std_header_of, XLP_MAGIC};
use crate::xlog_record::{records_ok, ends_records, parse_xlog_records, records_decoded_from, records_span, XLogRecord};

verus! {

/// The first record of the page continues one from the previous page.
pub const XLP_FIRST_IS_CONTRECORD: u16 = 0x0001;
/// The page carries a long header.
pub const XLP_LONG_HEADER: u16 = 0x0002;
/// Backup blocks starting in this page are optional.
pub const XLP_BKP_REMOVABLE: u16 = 0x0004;
/// Replaces a missing continuation record.
pub const XLP_FIRST_IS_OVERWRITE_CONTRECORD: u16 = 0x0008;
/// All defined flag bits of `xlp_info`.
pub const XLP_ALL_FLAGS: u16 = 0x000F;

/// Size in bytes of a long page header.
pub const XLOG_LONG_PHD_SIZE: usize = 40;

#[derive(Clone, Copy, Debug, PartialEq, Eq)]
pub struct XLogShortPageHeader {
    pub xlp_magic: u16,
    pub xlp_info: u16,
    pub xlp_tli: u32,
    pub xlp_pageaddr: u64,
    pub xlp_rem_len: u32,
}

#[derive(Clone, Copy, Debug, PartialEq, Eq)]
pub struct XLogLongPageHeader {
    /// standard header fields
    pub std: XLogShortPageHeader,
    /// system identifier
    pub xlp_sysid: u64,
    /// segment size, as a cross-check
    pub xlp_seg_size: u32,
    /// block size, as a cross-check
    pub xlp_xlog_blcksz: u32,
}

#[derive(Clone, Copy, Debug, PartialEq, Eq)]
pub enum XLogPageHeader {
    Short(XLogShortPageHeader),
    Long(XLogLongPageHeader),
}

impl XLogPageHeader {
    pub open spec fn spec_std(&self) -> XLogShortPageHeader {
        match self {
            XLogPageHeader::Short(h) => *h,
            XLogPageHeader::Long(h) => h.std,
        }
    }

    /// The standard fields, whichever the header's form.
    pub fn standard(&self) -> (r: XLogShortPageHeader)
        ensures
            r == self.spec_std(),
    {
        match self {
            XLogPageHeader::Short(h) => *h,
            XLogPageHeader::Long(h) => h.std,
        }
    }

    pub open spec fn spec_is_long(&self) -> bool {
        self is Long
    }

    pub fn is_long(&self) -> (r: bool)
        ensures
            r == self.spec_is_long(),
    {
        match self {
            XLogPageHeader::Short(_) => false,
            XLogPageHeader::Long(_) => true,
        }
    }

    /// Size in bytes that the header occupies on the page.
    pub open spec fn spec_size(&self) -> nat {
        if self.spec_is_long() { 40 } else { 20 }
    }
}

/// The standard fields stored in the first 20 bytes of `b`.
pub open spec fn short_header_of(b: Seq<u8>) -> XLogShortPageHeader {
    let h = std_header_of(b);
    XLogShortPageHeader {
        xlp_magic: h.xlp_magic,
        xlp_info: h.xlp_info,
        xlp_tli: h.xlp_tli,
        xlp_pageaddr: h.xlp_pageaddr,
        xlp_rem_len: h.xlp_rem_len,
    }
}

/// The long page header stored in the first 40 bytes of `b`.
pub open spec fn long_header_of(b: Seq<u8>) -> XLogLongPageHeader {
    XLogLongPageHeader {
        std: short_header_of(b),
        xlp_sysid: le_u64_at(b, 24),
        xlp_seg_size: le_u32_at(b, 32),
        xlp_xlog_blcksz: le_u32_at(b, 36),
    }
}

/// `info` holds only the defined flag bits.
pub open spec fn info_is_valid(info: u16) -> bool {
    info & !XLP_ALL_FLAGS == 0
}

/// `info` announces a long header.
pub open spec fn info_is_long(info: u16) -> bool {
    info & XLP_LONG_HEADER != 0
}

/// `b` begins with a page header that decodes without error.
pub open spec fn header_decodes(b: Seq<u8>) -> bool {
    &&& b.len() >= 20
    &&& le_u16_at(b, 0) == XLP_MAGIC
    &&& info_is_valid(le_u16_at(b, 2))
    &&& info_is_long(le_u16_at(b, 2)) ==> b.len() >= 40 && all_zero(b.subrange(20, 24))
}

/// The page header at the front of `b`, of the form its info bits announce.
pub open spec fn decoded_header(b: Seq<u8>) -> XLogPageHeader {
    if info_is_long(le_u16_at(b, 2)) {
        XLogPageHeader::Long(long_header_of(b))
    } else {
        XLogPageHeader::Short(short_header_of(b))
    }
}

/// Decodes a short or long page header at the front of `i`.
pub fn parse_xlog_page_header(i: &[u8]) -> (r: Result<(&[u8], XLogPageHeader), XLogError>)
    ensures
        i@.len() < 20 ==> (r matches Err(XLogError::Incomplete(n)) && n == 20 - i@.len()),
        i@.len() >= 20 && (le_u16_at(i@, 0) != XLP_MAGIC || !info_is_valid(le_u16_at(i@, 2)))
            ==> r matches Err(XLogError::InvalidPageHeader),
        i@.len() >= 20 && le_u16_at(i@, 0) == XLP_MAGIC && info_is_valid(le_u16_at(i@, 2))
            && info_is_long(le_u16_at(i@, 2)) && i@.len() < 40 ==> (r matches Err(
            XLogError::Incomplete(n),
        ) && n == 40 - i@.len()),
        i@.len() >= 40 && le_u16_at(i@, 0) == XLP_MAGIC && info_is_valid(le_u16_at(i@, 2))
            && info_is_long(le_u16_at(i@, 2)) && !all_zero(i@.subrange(20, 24)) ==> (r matches Err(
            XLogError::IncorrectPaddingValue(p),
        ) && p@ == i@.subrange(20, 24)),
        header_decodes(i@) ==> (r matches Ok((rest, h)) && h == decoded_header(i@) && rest@
            == i@.subrange(h.spec_size() as int, i@.len() as int)),
{
    let (rest, standard) = match xlog_page_header::parse_xlog_page_header(i) {
        Ok(v) => v,
        Err(e) => return Err(e),
    };
    if standard.xlp_info & !XLP_ALL_FLAGS != 0 {
        return Err(XLogError::InvalidPageHeader);
    }
    let short = XLogShortPageHeader {
        xlp_magic: standard.xlp_magic,
        xlp_info: standard.xlp_info,
        xlp_tli: standard.xlp_tli,
        xlp_pageaddr: standard.xlp_pageaddr,
        xlp_rem_len: standard.xlp_rem_len,
    };
    if standard.xlp_info & XLP_LONG_HEADER == 0 {
        return Ok((rest, XLogPageHeader::Short(short)));
    }
    if i.len() < XLOG_LONG_PHD_SIZE {
        return Err(XLogError::Incomplete(XLOG_LONG_PHD_SIZE - i.len()));
    }
    assert(rest@.subrange(0, 4) =~= i@.subrange(20, 24));
    let rest = match consume_padding(rest, 4) {
        Ok(rest) => rest,
        Err(e) => return Err(e),
    };
    let long = XLogLongPageHeader {
        std: short,
        xlp_sysid: read_u64(i, 24),
        xlp_seg_size: read_u32(i, 32),
        xlp_xlog_blcksz: read_u32(i, 36),
    };
    Ok((slice_subrange(i, XLOG_LONG_PHD_SIZE, i.len()), XLogPageHeader::Long(long)))
}


/// A decoded page: its header and the records that begin on it.
#[derive(Clone, Debug)]
pub struct XLogPageContent {
    pub page_header: XLogPageHeader,
    pub records: Vec<XLogRecord>,
}

/// Where records resume after a continued tail of `rem` bytes that begins at
/// `ps`: after the tail and its padding to a multiple of 8 bytes, and at most
/// at `len`.
pub open spec fn tail_end(ps: int, rem: int, len: int) -> int {
    let c = ps + rem + record_padding(rem);
    if c > len {
        len
    } else {
        c
    }
}

/// Where the tail described by `tail_end` ends.
pub fn skip_tail(ps: usize, rem: u32, len: usize) -> (r: usize)
    requires
        ps <= len,
    ensures
        r == tail_end(ps as int, rem as int, len as int),
{
    let pad: usize = if rem % 8 == 0 { 0 } else { 8 - (rem % 8) as usize };
    if rem as u64 > (len - ps) as u64 || pad > len - ps - rem as usize {
        len
    } else {
        ps + rem as usize + pad
    }
}

/// Size of the header of a page whose header is `h`: 40 bytes when long, 20 when short.
pub open spec fn header_size(h: XLogPageHeader) -> int {
    if h.spec_is_long() {
        40
    } else {
        20
    }
}

/// Where the first record that begins on the page `b` starts: after the
/// header and the continued tail of the previous page's last record.
pub open spec fn first_record_offset(b: Seq<u8>) -> int {
    let h = decoded_header(b);
    tail_end(header_size(h), h.spec_std().xlp_rem_len as int, b.len() as int)
}

/// The page `p` decodes: its header does, and so do the records that begin on it.
pub open spec fn page_ok(p: Seq<u8>) -> bool {
    header_decodes(p) && records_ok(p.subrange(first_record_offset(p), p.len() as int))
}

/// Decodes a page: its header, then the records that begin on it, skipping
/// the tail of a record continued from the previous page.
pub fn parse_xlog_page(i: &[u8]) -> (r: Result<(&[u8], XLogPageContent), XLogError>)
    ensures
        r is Ok <==> page_ok(i@),
        r matches Ok((_, page)) ==> page_decoded_from(i@, page),
        r matches Ok((rest, page)) ==> {
            let start = first_record_offset(i@);
            &&& header_decodes(i@)
            &&& page.page_header == decoded_header(i@)
            &&& ps_fits(i@)
            &&& records_decoded_from(i@.subrange(start, i@.len() as int), page.records@)
            &&& start + records_span(page.records@) <= i@.len()
            &&& start + records_span(page.records@) + rest@.len() == i@.len()
            &&& rest@ == i@.subrange(start + records_span(page.records@), i@.len() as int)
            &&& ends_records(rest@)
        },
{
    let (_, header) = match parse_xlog_page_header(i) {
        Ok(v) => v,
        Err(e) => return Err(e),
    };
    let n = i.len();
    let ps: usize = if header.is_long() { 40 } else { 20 };
    let start = skip_tail(ps, header.standard().xlp_rem_len, n);
    let (rest, records) = match parse_xlog_records(slice_subrange(i, start, n)) {
        Ok(v) => v,
        Err(e) => return Err(e),
    };
    proof {
        assert(rest@ =~= i@.subrange(start + records_span(records@), i@.len() as int));
    }
    Ok((rest, XLogPageContent { page_header: header, records }))
}

/// The page is long enough for its header.
pub open spec fn ps_fits(b: Seq<u8>) -> bool {
    b.len() >= header_size(decoded_header(b))
}

/// Size of a WAL page.
pub const XLOG_PAGE_SIZE: usize = 8192;

/// Page `k` of the run of pages `b`.
pub open spec fn page_of(b: Seq<u8>, k: int) -> Seq<u8> {
    b.subrange(8192 * k, 8192 * k + 8192)
}

/// `page` is what decoding the page `p` yields: its header, and its records,
/// each where the previous one ends, from its first record offset; what
/// follows them holds no record.
pub open spec fn page_decoded_from(p: Seq<u8>, page: XLogPageContent) -> bool {
    let start = first_record_offset(p);
    &&& page.page_header == decoded_header(p)
    &&& records_decoded_from(p.subrange(start, p.len() as int), page.records@)
    &&& start + records_span(page.records@) <= p.len()
    &&& ends_records(p.subrange(start + records_span(page.records@), p.len() as int))
}

/// Decodes a run of whole 8 KiB pages, one after another.
pub fn parse_xlog_pages(i: &[u8]) -> (r: Result<(&[u8], Vec<XLogPageContent>), XLogError>)
    ensures
        r is Ok <==> forall|k: int| 0 <= k < i@.len() / 8192 ==> #[trigger] page_ok(page_of(i@, k)),
        r matches Ok((rest, pages)) ==> {
            &&& pages@.len() == i@.len() / 8192
            &&& rest@ == i@.subrange(i@.len() - i@.len() % 8192, i@.len() as int)
            &&& forall|k: int|
                0 <= k < pages@.len() ==> page_decoded_from(page_of(i@, k), #[trigger] pages@[k])
        },
{
    let n = i.len();
    let mut pages: Vec<XLogPageContent> = Vec::new();
    let mut pos: usize = 0;
    while n - pos >= XLOG_PAGE_SIZE
        invariant
            n == i@.len(),
            pos == 8192 * pages@.len(),
            pos <= n,
            forall|k: int|
                0 <= k < pages@.len() ==> page_decoded_from(page_of(i@, k), #[trigger] pages@[k]),
            forall|k: int| 0 <= k < pages@.len() ==> #[trigger] page_ok(page_of(i@, k)),
        decreases n - pos,
    {
        let chunk = slice_subrange(i, pos, pos + XLOG_PAGE_SIZE);
        let (_, page) = match parse_xlog_page(chunk) {
            Ok(v) => v,
            Err(e) => {
                assert(chunk@ == page_of(i@, pages@.len() as int));
                assert(pages@.len() < i@.len() / 8192) by (nonlinear_arith)
                    requires
                        pos == 8192 * pages@.len(),
                        n - pos >= 8192,
                        n == i@.len(),
                ;
                assert(!page_ok(page_of(i@, pages@.len() as int)));
                return Err(e);
            },
        };
        assert(chunk@ == page_of(i@, pages@.len() as int));
        let ghost before = pages@;
        pages.push(page);
        assert forall|k: int| 0 <= k < pages@.len() implies page_decoded_from(
            page_of(i@, k),
            #[trigger] pages@[k],
        ) && page_ok(page_of(i@, k)) by {
            if k < before.len() {
                assert(pages@[k] == before[k]);
            }
        }
        pos = pos + XLOG_PAGE_SIZE;
    }
    assert(pos == n - n % 8192) by (nonlinear_arith)
        requires
            pos == 8192 * pages@.len(),
            pos <= n,
            n - pos < 8192,
    ;
    assert(pages@.len() == n / 8192) by (nonlinear_arith)
        requires
            pos == 8192 * pages@.len(),
            pos <= n,
            n - pos < 8192,
    ;
    Ok((slice_subrange(i, pos, n), pages))
}


/// Bytes that the records beginning on the decoded pages occupy, padding included.
pub open spec fn pages_records_span(pages: Seq<XLogPageContent>) -> int
    decreases pages.len(),
{
    if pages.len() == 0 {
        0
    } else {
        pages_records_span(pages.drop_last()) + records_span(pages.last().records@)
    }
}

/// Bytes before the first record of each of the first `n` pages of `b`: the
/// page header and the tail (with its padding) of any record continued
/// from the page before.
pub open spec fn pages_header_bytes(b: Seq<u8>, n: int) -> int
    decreases n,
{
    if n <= 0 {
        0
    } else {
        pages_header_bytes(b, n - 1) + first_record_offset(page_of(b, n - 1))
    }
}

/// Records fill a run of pages: when on every page the records that begin
/// there take all the room after the page's header (and any continued tail),
/// the records' total lengths with padding add up to the size of the run less
/// those header bytes.
pub proof fn lemma_filled_pages(b: Seq<u8>, pages: Seq<XLogPageContent>)
    requires
        b.len() == 8192 * pages.len(),
        forall|k: int|
            0 <= k < pages.len() ==> page_decoded_from(page_of(b, k), #[trigger] pages[k]),
        forall|k: int|
            0 <= k < pages.len() ==> first_record_offset(page_of(b, k)) + records_span(
                (#[trigger] pages[k]).records@,
            ) == 8192,
    ensures
        pages_records_span(pages) == b.len() - pages_header_bytes(b, pages.len() as int),
    decreases pages.len(),
{
    if pages.len() > 0 {
        let n = pages.len() - 1;
        let front = pages.drop_last();
        let bf = b.subrange(0, 8192 * n);
        assert forall|k: int| 0 <= k < front.len() implies page_of(bf, k) == page_of(b, k) by {
            assert(page_of(bf, k) =~= page_of(b, k));
        }
        assert forall|k: int| 0 <= k < front.len() implies page_decoded_from(
            page_of(bf, k),
            #[trigger] front[k],
        ) && first_record_offset(page_of(bf, k)) + records_span(front[k].records@) == 8192 by {
            assert(front[k] == pages[k]);
            assert(page_of(bf, k) == page_of(b, k));
        }
        lemma_filled_pages(bf, front);
        lemma_header_bytes_prefix(b, bf, n);
        assert(first_record_offset(page_of(b, n)) + records_span(pages[n].records@) == 8192);
    }
}

proof fn lemma_header_bytes_prefix(b: Seq<u8>, bf: Seq<u8>, n: int)
    requires
        0 <= n,
        8192 * n <= b.len(),
        bf == b.subrange(0, 8192 * n),
    ensures
        pages_header_bytes(bf, n) == pages_header_bytes(b, n),
    decreases n,
{
    if n > 0 {
        let bg = b.subrange(0, 8192 * (n - 1));
        assert(bf.subrange(0, 8192 * (n - 1)) =~= bg);
        lemma_header_bytes_prefix(b, bg, n - 1);
        lemma_header_bytes_prefix(bf, bg, n - 1);
        assert(page_of(bf, n - 1) =~= page_of(b, n - 1));
    }
}

} // verus!
