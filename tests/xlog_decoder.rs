use wal_analyzer::error::XLogError;
use wal_analyzer::xlog_reader::XLogDecoder;
use wal_analyzer::xlog_record::{parse_xlog_record, RmgrId};

const STANDBY: &[u8] = b"\x32\x00\x00\x00\x00\x00\x00\x00\x00\x4a\x00\x03\x00\x00\x00\x00\x10\x08\x00\x00\xed\x8b\xfc\x2d\xff\x18\x00\x00\x00\x00\x00\x00\x00\x00\x00\x48\xee\x0a\xea\x02\x00\x00\xea\x02\x00\x00\xe9\x02\x00\x00\x00\x00\x00\x00\x00\x00";

fn page_header(info: u16, pageaddr: u64, rem_len: u32, long: bool) -> Vec<u8> {
    let mut h = Vec::new();
    h.extend_from_slice(&0xd10du16.to_le_bytes());
    h.extend_from_slice(&info.to_le_bytes());
    h.extend_from_slice(&1u32.to_le_bytes());
    h.extend_from_slice(&pageaddr.to_le_bytes());
    h.extend_from_slice(&rem_len.to_le_bytes());
    if long {
        h.extend_from_slice(&[0; 4]);
        h.extend_from_slice(&0x67f11d8231c57c71u64.to_le_bytes());
        h.extend_from_slice(&0x1000000u32.to_le_bytes());
        h.extend_from_slice(&0x2000u32.to_le_bytes());
    }
    h
}

/// A Transaction record of `tot_len` bytes whose main data is a counting pattern.
fn big_record(tot_len: u32) -> Vec<u8> {
    let mut r = Vec::new();
    r.extend_from_slice(&tot_len.to_le_bytes());
    r.extend_from_slice(&755u32.to_le_bytes());
    r.extend_from_slice(&0x1400028u64.to_le_bytes());
    r.extend_from_slice(&[0x00, 0x01, 0, 0]);
    r.extend_from_slice(&0xdeadbeefu32.to_le_bytes());
    let data_len = tot_len - 24 - 5;
    r.push(0xfe);
    r.extend_from_slice(&data_len.to_le_bytes());
    r.extend((0..data_len).map(|k| (k % 251) as u8));
    r
}

#[test]
fn record_spanning_a_page_boundary() {
    let record = big_record(8500);
    let head = 8192 - 40;
    let rem = 8500 - head;
    assert_eq!(rem, 348);

    let mut page0 = page_header(0x0002, 0x1000000, 0, true);
    page0.extend_from_slice(&record[..head]);
    assert_eq!(page0.len(), 8192);

    let mut page1 = page_header(0x0001, 0x1002000, rem as u32, false);
    page1.extend_from_slice(&record[head..]);
    page1.extend_from_slice(&[0; 4]);
    page1.extend_from_slice(STANDBY);
    page1.resize(8192, 0);

    let mut decoder = XLogDecoder::new();
    let first = decoder.decode_page(&page0).unwrap();
    assert!(first.is_empty());
    assert!(matches!(decoder.finish(), Err(XLogError::Incomplete(348))));
    let second = decoder.decode_page(&page1).unwrap();
    assert!(decoder.finish().is_ok());
    assert_eq!(second.len(), 2);

    let mut contiguous = record.clone();
    contiguous.extend_from_slice(&[0; 4]);
    let (_, expected) = parse_xlog_record(&contiguous).unwrap();
    let joined = &second[0];
    assert_eq!(joined.header, expected.header);
    assert_eq!(joined.header.xl_tot_len, 8500);
    assert_eq!(joined.header.xl_rmid, RmgrId::Transaction);
    assert_eq!(joined.blocks.len(), 1);
    assert_eq!(joined.blocks[0].data, expected.blocks[0].data);
    assert_eq!(joined.blocks[0].data.as_ref().unwrap().len(), 8471);
    assert_eq!(joined.operation, expected.operation);

    assert_eq!(second[1].header.xl_rmid, RmgrId::Standby);
}

#[test]
fn record_spanning_three_pages() {
    let record = big_record(20000);
    let mut page0 = page_header(0x0002, 0, 0, true);
    page0.extend_from_slice(&record[..8152]);
    let mut page1 = page_header(0x0001, 0x2000, 20000 - 8152, false);
    page1.extend_from_slice(&record[8152..8152 + 8172]);
    let rem2 = 20000 - 8152 - 8172;
    let mut page2 = page_header(0x0001, 0x4000, rem2 as u32, false);
    page2.extend_from_slice(&record[8152 + 8172..]);
    page2.resize(8192, 0);

    let mut decoder = XLogDecoder::new();
    assert!(decoder.decode_page(&page0).unwrap().is_empty());
    assert!(decoder.decode_page(&page1).unwrap().is_empty());
    let recs = decoder.decode_page(&page2).unwrap();
    assert_eq!(recs.len(), 1);
    assert_eq!(recs[0].header.xl_tot_len, 20000);
    assert_eq!(recs[0].blocks[0].data.as_ref().unwrap()[..], record[29..]);
}

#[test]
fn continuation_length_must_match() {
    let record = big_record(8500);
    let mut page0 = page_header(0x0002, 0, 0, true);
    page0.extend_from_slice(&record[..8152]);
    let mut page1 = page_header(0x0001, 0x2000, 100, false);
    page1.resize(8192, 0);
    let mut decoder = XLogDecoder::new();
    decoder.decode_page(&page0).unwrap();
    assert!(matches!(decoder.decode_page(&page1), Err(XLogError::InvalidRecord(_))));
}

#[test]
fn first_page_must_be_long() {
    let mut page = page_header(0x0000, 0, 0, false);
    page.resize(8192, 0);
    let mut decoder = XLogDecoder::new();
    assert!(matches!(decoder.decode_page(&page), Err(XLogError::IncorrectPageType)));
}

#[test]
fn records_of_one_page() {
    let mut page = page_header(0x0002, 0, 0, true);
    page.extend_from_slice(STANDBY);
    page.extend_from_slice(STANDBY);
    page.resize(8192, 0);
    let mut decoder = XLogDecoder::new();
    let recs = decoder.decode_page(&page).unwrap();
    assert_eq!(recs.len(), 2);
    assert!(decoder.finish().is_ok());
}
