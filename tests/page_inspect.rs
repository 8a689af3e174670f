use wal_analyzer::inspect::page::{parse_line_pointer, parse_page, parse_page_header, ItemId, PageError, LP_NORMAL};
use wal_analyzer::inspect::page_inspect::{self, page_get_max_offset_number};
use wal_analyzer::inspect::pg_lsn::{InvalidLSN, PageXLogRecPtr};
use wal_analyzer::inspect::tuple::{parse_heap_tuple_header, HeapTupleFields};

#[test]
fn page_test_parse_page_header() {
    let input = b"\x0e\x00\x00\x00\x68\x7f\xd3\x8a\xf4\x9f\x00\x00\x28\x00\x80\x1f\x00\x20\x04\x20\x00\x00\x00\x00";
    let res = parse_page_header(input);
    assert!(res.is_ok(), "{:?}", res);
    let (i, page_header) = res.unwrap();
    assert!(i.is_empty(), "{:?}", i);

    assert_eq!(page_header.pd_lsn, 0x8ad37f680000000e);
    assert_eq!(page_header.pd_checksum, 0x9ff4);
    assert_eq!(page_header.pd_flags, 0);
    assert_eq!(page_header.pd_lower, 0x28);
    assert_eq!(page_header.pd_upper, 0x1f80);
    assert_eq!(page_header.pd_special, 0x2000);
    assert_eq!(page_header.pd_version, 4);
    assert_eq!(page_header.pd_pagesize, 8192);
    assert_eq!(page_header.pd_prune_xid, 0);
}

#[test]
fn page_test_parse_line_pointer() {
    let input = b"\x80\x9f\x38\x00";
    let res = parse_line_pointer(input);
    assert!(res.is_ok(), "{:?}", res.unwrap_err());
    let (i, item_id_data) = res.unwrap();
    assert!(i.is_empty(), "{:?}", i);

    let expected_item_id_data = ItemId { lp_off: 8064, lp_flags: LP_NORMAL, lp_len: 28 };
    assert_eq!(expected_item_id_data, item_id_data);
}

#[test]
fn line_pointer_count() {
    assert_eq!(page_get_max_offset_number(0), 0);
    assert_eq!(page_get_max_offset_number(24), 0);
    assert_eq!(page_get_max_offset_number(27), 0);
    assert_eq!(page_get_max_offset_number(28), 1);
    assert_eq!(page_get_max_offset_number(40), 4);
    assert_eq!(page_get_max_offset_number(268), 61);
}

/// A page holding two tuples of 28 bytes, at 8160 and 8128.
fn two_tuple_page() -> Vec<u8> {
    let mut page = vec![0u8; 8192];
    page[..24].copy_from_slice(b"\x00\x00\x00\x00\xa8\x2e\x59\x01\x23\x61\x00\x00\x20\x00\xc0\x1f\x00\x20\x04\x20\x00\x00\x00\x00");
    page[24..28].copy_from_slice(&(8160u32 | 1 << 15 | 28 << 17).to_le_bytes());
    page[28..32].copy_from_slice(&(8128u32 | 1 << 15 | 28 << 17).to_le_bytes());
    for (at, cid, pos) in [(8160usize, 0u32, 1u16), (8128, 1, 2)] {
        page[at..at + 4].copy_from_slice(&767u32.to_le_bytes());
        page[at + 8..at + 12].copy_from_slice(&cid.to_le_bytes());
        page[at + 16..at + 18].copy_from_slice(&pos.to_le_bytes());
        page[at + 18..at + 20].copy_from_slice(&2u16.to_le_bytes());
        page[at + 20..at + 22].copy_from_slice(&2305u16.to_le_bytes());
        page[at + 22] = 24;
        page[at + 23] = 0b1;
        page[at + 24..at + 28].copy_from_slice(&1i32.to_le_bytes());
    }
    page
}

#[test]
fn whole_page_with_two_tuples() {
    let bytes = two_tuple_page();
    let (rest, page) = parse_page(&bytes).unwrap();
    assert!(rest.is_empty());
    assert_eq!(page.header.pd_lsn, 0x01592ea8_00000000);
    assert_eq!(page.header.pd_checksum, 24867);
    assert_eq!(page.header.pd_lower, 32);
    assert_eq!(page.header.pd_upper, 8128);
    assert_eq!(page.num_lp(), 2);
    assert_eq!(page.get_line_pointer(0), Ok(ItemId { lp_off: 8160, lp_flags: 1, lp_len: 28 }));
    assert_eq!(page.get_line_pointer(1), Ok(ItemId { lp_off: 8128, lp_flags: 1, lp_len: 28 }));
    assert_eq!(page.get_line_pointer(2), Err(PageError::InvalidOffset(2, 2)));

    let first = page.get_tuple(0).unwrap();
    assert_eq!(first.xmin, 767);
    assert_eq!(first.t_cid, 0);
    assert_eq!(first.t_ctid.ip_posid, 1);
    assert_eq!(first.t_infomask2, 2);
    assert_eq!(first.t_infomask, 2305);
    assert_eq!(first.t_hoff, 24);
    assert_eq!(first.t_bits, vec![0b1]);
    assert!(!first.is_null(0));
    assert!(first.is_null(1));
    let second = page.get_tuple(1).unwrap();
    assert_eq!(second.t_cid, 1);
    assert_eq!(second.t_ctid.ip_posid, 2);

    let (rest, header) = page_inspect::parse_page_header(&bytes).unwrap();
    assert_eq!(header.pd_linp.len(), 2);
    assert_eq!(header.pd_linp[1], ItemId { lp_off: 8128, lp_flags: 1, lp_len: 28 });
    assert_eq!(header.pd_lsn, PageXLogRecPtr { xlogid: 0, xrecoff: 0x01592ea8 });
    assert_eq!(header.pd_pagesize_version, 0x2004);
    assert_eq!(rest.len(), 8192 - 32);
}

#[test]
fn header_with_missing_line_pointers() {
    let input = b"\x0e\x00\x00\x00\x68\x7f\xd3\x8a\xf4\x9f\x00\x00\x28\x00\x80\x1f\x00\x20\x04\x20\x00\x00\x00\x00";
    assert_eq!(page_inspect::parse_page_header(input), Err(PageError::Incomplete(16)));
    assert_eq!(parse_page(input).err(), Some(PageError::Incomplete(8192 - 24)));
}

#[test]
fn tuple_header_needs_bitmap() {
    let mut t = vec![0u8; 23];
    t[18] = 9; // nine attributes: two bytes of bitmap
    assert_eq!(parse_heap_tuple_header(&t).err(), Some(PageError::Incomplete(2)));
    t.extend_from_slice(&[0xff, 0x01, 0x42]);
    let (rest, h) = parse_heap_tuple_header(&t).unwrap();
    assert_eq!(h.t_bits, vec![0xff, 0x01]);
    assert_eq!(rest, &[0x42]);
    assert!(!h.is_null(8));
}

#[test]
fn lsn_text() {
    let p = PageXLogRecPtr::parse("0/1592EA8").unwrap();
    assert_eq!(p, PageXLogRecPtr::new((0, 0x1592ea8)));
    assert_eq!(p.lsn(), 0x1592ea8);
    assert_eq!(PageXLogRecPtr::parse("16/B374D848").unwrap().lsn(), 0x16_b374d848);
    assert_eq!(PageXLogRecPtr::parse("1592EA8"), Err(InvalidLSN::Format("1592EA8".to_string())));
    assert!(matches!(PageXLogRecPtr::parse("0/xyz"), Err(InvalidLSN::HexValue(s, _)) if s == "0/xyz"));
    assert!(matches!(PageXLogRecPtr::parse("100000000/0"), Err(InvalidLSN::HexValue(_, _))));
}

#[test]
fn tuple_fields_hold_cid_or_xvac() {
    let f = HeapTupleFields::new(true, (1, 2, 3));
    assert_eq!((f.t_cid, f.t_xvac), (Some(3), None));
    let f = HeapTupleFields::new(false, (1, 2, 3));
    assert_eq!((f.xmin, f.xmax, f.t_cid, f.t_xvac), (1, 2, None, Some(3)));
}

#[test]
fn page_inspect_test_parse_page_header() {
    let input = b"\x0e\x00\x00\x00\xa8\x05\x06\x8a\x77\x87\x00\x00\x20\x00\xc0\x1f\x00\x20\x04\x20\x00\x00\x00\x00\xe0\x9f\x38\x00\xc0\x9f\x38";
    // pd_lower 32 announces two line pointers; the second lacks its last byte
    let res = page_inspect::parse_page_header(input);
    assert_eq!(res, Err(PageError::Incomplete(1)));
}

#[test]
fn line_pointer_past_page_end() {
    let mut bytes = two_tuple_page();
    // pd_lower 8200 announces more line pointers than the page can hold
    bytes[12..14].copy_from_slice(&8200u16.to_le_bytes());
    let (_, page) = parse_page(&bytes).unwrap();
    assert!(matches!(page.get_line_pointer(2042), Err(PageError::LinePointerParseError(_))));
    assert!(page.get_line_pointer(2041).is_ok());
    assert!(matches!(page.get_line_pointer(2044), Err(PageError::InvalidOffset(2044, 2044))));
    assert_eq!(page.get_line_pointer(2043).err(), Some(PageError::LinePointerParseError("line pointer lies past the end of the page".to_string())));
}

#[test]
fn tuple_of_unused_line_pointer() {
    let mut bytes = two_tuple_page();
    bytes[24..28].copy_from_slice(&(8160u32 | 28 << 17).to_le_bytes());
    let (_, page) = parse_page(&bytes).unwrap();
    assert!(matches!(page.get_tuple(0), Err(PageError::LinePointerParseError(_))));
    assert!(page.get_tuple(1).is_ok());
    assert!(matches!(page.get_tuple(2), Err(PageError::InvalidOffset(2, 2))));
}

#[test]
fn page_data_and_header_data() {
    let bytes = two_tuple_page();
    let (_, data) = page_inspect::parse_page(&bytes).unwrap();
    assert_eq!(data.page_header_data.pd_linp.len(), 2);
    let (_, page) = parse_page(&bytes).unwrap();
    let t = page.get_tuple(1).unwrap().to_header_data();
    let heap = t.t_heap.unwrap();
    assert_eq!((heap.xmin, heap.t_cid, heap.t_xvac), (767, Some(1), None));
    assert!(t.t_datum.is_none());
    assert_eq!(t.t_bits, vec![0b1]);
}
