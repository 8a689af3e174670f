use wal_analyzer::error::XLogError;
use wal_analyzer::xlog_page::{
    parse_xlog_page, parse_xlog_page_header, parse_xlog_pages, XLogPageHeader, XLP_BKP_REMOVABLE,
    XLP_LONG_HEADER,
};
use wal_analyzer::xlog_page_header;
use wal_analyzer::xlog_record::{parse_xlog_record, RmgrId};

const LONG_HEADER: &[u8] = b"\x0d\xd1\x07\x00\x01\x00\x00\x00\x00\x00\x00\x02\x00\x00\x00\x00\x23\x04\x00\x00\x00\x00\x00\x00\x76\xb3\x5f\x3c\x04\xb7\xdf\x67\x00\x00\x00\x01\x00\x00\x00\x00";

const TWO_RECORDS: &[u8] = b"\x0d\xd1\x06\x00\x01\x00\x00\x00\x00\x00\x40\x01\x00\x00\x00\x00\x00\x00\x00\x00\x00\x00\x00\x00\x71\x7c\xc5\x31\x82\x1d\xf1\x67\x00\x00\x10\x00\x00\x20\x00\x00\x3b\x00\x00\x00\xe8\x02\x00\x00\x70\xcc\x3f\x01\x00\x00\x00\x00\x80\x0a\x00\x00\x25\xcb\x5b\xc0\x00\x60\x0a\x00\x7f\x06\x00\x00\xb0\x32\x00\x00\x16\x40\x00\x00\x00\x00\x00\x00\xff\x03\x04\x00\x01\x08\x18\x01\x01\x00\x00\x00\x01\x00\x08\x00\x00\x00\x00\x00\x5a\x00\x00\x00\xe8\x02\x00\x00\x28\x00\x40\x01\x00\x00\x00\x00\xa0\x0b\x00\x00\x14\x78\x7e\x7d\x00\x40\x00\x00\x7f\x06\x00\x00\xb0\x32\x00\x00\x17\x40\x00\x00\x01\x00\x00\x00\x02\xe0\x1c\x00\x00\x00\x00\x00\xff\x08\x04\x00\x00\x00\x01\x00\x00\x00\x00\x00\x00\x00\x01\x00\x00\x00\x00\x00\x00\x00\x00\x00\x00\x00\x01\xa9\xb4\x3e\x01\x00\x00\x00\x00\x00\x00\x00\x00\x00\x00\x00\x00\x00";

#[test]
fn xlog_page_test_parse_long_page_header() {
    let res = parse_xlog_page_header(LONG_HEADER);
    assert!(res.is_ok(), "{:?}", res);
    match res.unwrap() {
        (i, XLogPageHeader::Long(page)) => {
            assert!(i.is_empty(), "{:?}", i);
            assert_eq!(page.std.xlp_magic, 0xd10d)
        }
        e => {
            panic!("Unexpected output: {:?}", e)
        }
    }
}

#[test]
fn page_test_parse_long_page_header() {
    let res = parse_xlog_page_header(LONG_HEADER);
    assert!(res.is_ok(), "{:?}", res);
    match res.unwrap() {
        (i, XLogPageHeader::Long(page)) => {
            assert!(i.is_empty(), "{:?}", i);
            assert_eq!(page.std.xlp_magic, 0xd10d);
            assert_eq!(page.xlp_sysid, 0x67dfb7043c5fb376);
            assert_eq!(page.xlp_seg_size, 0x1000000);
            assert_eq!(page.xlp_xlog_blcksz, 0);
        }
        e => {
            panic!("Unexpected output: {:?}", e)
        }
    }
}

#[test]
fn xlog_page_test_page_too_small() {
    let input = b"\x0d\xd1";
    let res = parse_xlog_page_header(input);
    assert!(matches!(res, Err(XLogError::Incomplete(_))));
}

#[test]
fn page_test_page_too_small() {
    let input = b"\x0d\xd1";
    let res = parse_xlog_page_header(input);
    assert!(matches!(res, Err(XLogError::Incomplete(18))));
}

#[test]
fn short_page_header_parse() {
    let input = b"\x0d\xd1\x07\x00\x01\x00\x00\x00\x00\x00\x00\x02\x00\x00\x00\x00\x23\x04\x00\x00";
    let (i, h) = xlog_page_header::parse_xlog_page_header(input).unwrap();
    assert!(i.is_empty());
    assert_eq!(h.xlp_magic, 0xd10d);
    assert_eq!(h.xlp_info, 0x0007);
    assert_eq!(h.xlp_tli, 1);
    // little-endian: bytes 00 00 00 02 00 00 00 00
    assert_eq!(h.xlp_pageaddr, 0x0000000002000000);
    assert_eq!(h.xlp_rem_len, 0x0423);
    // The info bits announce a long header, which needs 40 bytes.
    assert!(matches!(parse_xlog_page_header(input), Err(XLogError::Incomplete(20))));
}

#[test]
fn short_page_header_without_long_flag() {
    let input = b"\x0d\xd1\x05\x00\x01\x00\x00\x00\x00\x20\x00\x02\x00\x00\x00\x00\x10\x00\x00\x00\xaa";
    let (i, h) = parse_xlog_page_header(input).unwrap();
    assert_eq!(i, b"\xaa");
    let XLogPageHeader::Short(s) = h else { panic!("Expected short page header") };
    assert_eq!(s.xlp_info, 5);
    assert_eq!(s.xlp_pageaddr, 0x0000000002002000);
    assert_eq!(s.xlp_rem_len, 16);
}

#[test]
fn bad_magic_and_bad_info() {
    let mut input = LONG_HEADER.to_vec();
    input[0] = 0x0e;
    assert!(matches!(parse_xlog_page_header(&input), Err(XLogError::InvalidPageHeader)));
    assert!(matches!(xlog_page_header::parse_xlog_page_header(&input), Err(XLogError::InvalidPageHeader)));
    let mut input = LONG_HEADER.to_vec();
    input[2] = 0x17;
    assert!(matches!(parse_xlog_page_header(&input), Err(XLogError::InvalidPageHeader)));
    let mut input = LONG_HEADER.to_vec();
    input[21] = 1;
    assert!(matches!(parse_xlog_page_header(&input), Err(XLogError::IncorrectPaddingValue(_))));
}

#[test]
fn test_page_with_two_records() {
    let input = TWO_RECORDS;
    let (i, page_header) = parse_xlog_page_header(input).unwrap();
    assert_eq!(i.len(), 160);

    let long_page_header = match page_header {
        XLogPageHeader::Short(_) => panic!("Expected short page header"),
        XLogPageHeader::Long(xlog_long_page_header) => xlog_long_page_header,
    };
    assert_eq!(long_page_header.std.xlp_info, XLP_LONG_HEADER | XLP_BKP_REMOVABLE);
    assert_eq!(long_page_header.std.xlp_tli, 1);
    assert_eq!(long_page_header.std.xlp_pageaddr, 0x1400000);
    assert_eq!(long_page_header.std.xlp_rem_len, 0);

    assert_eq!(long_page_header.xlp_sysid, 0x67f11d8231c57c71);
    assert_eq!(long_page_header.xlp_seg_size, 0x100000);
    assert_eq!(long_page_header.xlp_xlog_blcksz, 0x2000);

    let (i, record) = parse_xlog_record(i).unwrap();
    assert_eq!(record.header.xl_tot_len, 59);
    assert_eq!(record.header.xl_rmid, RmgrId::Heap);
    assert_eq!(record.header.xl_xid, 744);
    assert_eq!(record.header.xl_crc, 3227241253);
    assert_eq!(i.len(), 96);
    assert_eq!(record.blocks.len(), 2);

    let main_block = &record.blocks[1];
    assert_eq!(main_block.blk_id, 0xff);
    assert_eq!(main_block.data_len, 3);

    let (i, record) = parse_xlog_record(i).unwrap();
    assert_eq!(record.header.xl_rmid, RmgrId::Btree);
    assert_eq!(record.header.xl_xid, 744);
    assert_eq!(record.header.xl_crc, 2105440276);
    assert_eq!(i.len(), 0);
}

#[test]
fn whole_page_with_two_records() {
    let mut page = TWO_RECORDS.to_vec();
    page.resize(8192 * 2, 0);
    let (rest, pages) = parse_xlog_pages(&page[..8192]).unwrap();
    assert!(rest.is_empty());
    assert_eq!(pages.len(), 1);
    assert_eq!(pages[0].records.len(), 2);
    assert_eq!(pages[0].records[1].header.xl_rmid, RmgrId::Btree);
    let (rest, content) = parse_xlog_page(&page[..8192]).unwrap();
    assert_eq!(rest.len(), 8192 - 200);
    assert_eq!(content.records.len(), 2);
    // the second page is all zeros: its magic is wrong
    assert!(matches!(parse_xlog_pages(&page), Err(XLogError::InvalidPageHeader)));
}

/// A Transaction record of `tot_len` bytes whose main data is a counting pattern.
fn filler_record(tot_len: u32) -> Vec<u8> {
    let mut r = Vec::new();
    r.extend_from_slice(&tot_len.to_le_bytes());
    r.extend_from_slice(&0u32.to_le_bytes());
    r.extend_from_slice(&0u64.to_le_bytes());
    r.extend_from_slice(&[0x00, 0x01, 0, 0]);
    r.extend_from_slice(&0u32.to_le_bytes());
    let data_len = tot_len - 24 - 5;
    r.push(0xfe);
    r.extend_from_slice(&data_len.to_le_bytes());
    r.extend((0..data_len).map(|k| (k % 13) as u8));
    r
}

#[test]
fn records_fill_pages_less_headers() {
    let standby = &TWO_RECORDS[40..40 + 64];
    let mut page0 = LONG_HEADER.to_vec();
    page0[2] = 0x02;
    page0[16] = 0;
    page0[17] = 0;
    page0.extend_from_slice(standby);
    page0.extend_from_slice(&filler_record(8192 - 40 - 64));
    // a short page whose first 4 payload bytes end a record from the page before
    let mut page1 = page0[..20].to_vec();
    page1[2] = 0x01;
    page1[16] = 4;
    page1.extend_from_slice(&[0xaa, 0xbb, 0xcc, 0xdd]);
    page1.extend_from_slice(&[0; 4]);
    page1.extend_from_slice(&filler_record(5160));
    page1.extend_from_slice(&filler_record(3000));
    // 8-byte records cannot fill the 8164 bytes left: 4 bytes stay unused
    page1.resize(8192, 0);
    let mut segment = page0.clone();
    segment.extend_from_slice(&page1);
    assert_eq!(segment.len(), 2 * 8192);

    let (rest, pages) = parse_xlog_pages(&segment).unwrap();
    assert!(rest.is_empty());
    let spans: usize = pages
        .iter()
        .flat_map(|p| p.records.iter())
        .map(|r| {
            let t = r.header.xl_tot_len as usize;
            t + (8 - t % 8) % 8
        })
        .sum();
    assert_eq!(pages[0].records.len(), 2);
    assert_eq!(pages[1].records.len(), 2);
    assert_eq!(spans, segment.len() - 40 - 28 - 4);
}

#[test]
fn short_page_tail_follows_20_byte_header() {
    let standby = &TWO_RECORDS[40..40 + 64];
    let mut page = TWO_RECORDS[..20].to_vec();
    page[2] = 0x01;
    page[16] = 5;
    page.extend_from_slice(&[1, 2, 3, 4, 5, 0, 0, 0]);
    page.extend_from_slice(standby);
    page.resize(8192, 0);
    let (_, content) = parse_xlog_page(&page).unwrap();
    assert_eq!(content.records.len(), 1);
    assert_eq!(content.records[0].header.xl_tot_len, 59);
}
