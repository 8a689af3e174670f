use wal_analyzer::error::XLogError;
use wal_analyzer::heap::HeapOperation;
use wal_analyzer::xlog_record::{parse_xlog_record, parse_xlog_record_header, parse_xlog_records, Operation, RmgrId};

const STANDBY: &[u8] = b"\x32\x00\x00\x00\x00\x00\x00\x00\x00\x4a\x00\x03\x00\x00\x00\x00\x10\x08\x00\x00\xed\x8b\xfc\x2d\xff\x18\x00\x00\x00\x00\x00\x00\x00\x00\x00\x48\xee\x0a\xea\x02\x00\x00\xea\x02\x00\x00\xe9\x02\x00\x00\x00\x00\x00\x00\x00\x00";

const FPW: &[u8] = b"\xe8\x00\x00\x00\xec\x02\x00\x00\x00\x01\x60\x01\x00\x00\x00\x00\x00\x0a\x00\x00\x7e\x34\x63\xfd\x00\x30\x0a\x00\xa8\x00\x28\x00\x05\x7f\x06\x00\x00\xb0\x32\x00\x00\x16\x40\x00\x00\x00\x00\x00\x00\xff\x03\x00\x00\x00\x00\x68\x00\x60\x01\x00\x00\x00\x00\x28\x00\x80\x1f\x00\x20\x04\x20\x00\x00\x00\x00\xe0\x9f\x38\x00\xc0\x9f\x38\x00\xa0\x9f\x38\x00\x80\x9f\x38\x00\xec\x02\x00\x00\x00\x00\x00\x00\x00\x00\x00\x00\x00\x00\x00\x00\x04\x00\x04\x00\x01\x08\x18\x01\x01\x00\x00\x00\x00\x00\x00\x00\xeb\x02\x00\x00\x00\x00\x00\x00\x00\x00\x00\x00\x00\x00\x00\x00\x03\x00\x04\x00\x01\x08\x18\x01\x01\x00\x00\x00\x00\x00\x00\x00\xea\x02\x00\x00\x00\x00\x00\x00\x00\x00\x00\x00\x00\x00\x00\x00\x02\x00\x04\x00\x01\x08\x18\x01\x01\x00\x00\x00\x00\x00\x00\x00\xe8\x02\x00\x00\x00\x00\x00\x00\x03\x00\x00\x00\x00\x00\x00\x00\x01\x00\x04\x00\x01\x09\x18\x01\x01\x00\x00\x00\x00\x00\x00\x00\x04\x00\x01\x08\x18\x01\x01\x00\x00\x00\x04\x00\x08";

#[test]
fn xlog_record_test_record_too_small() {
    let input = b"\x00\x00";
    let res = parse_xlog_record_header(input);
    assert!(matches!(res, Err(XLogError::Incomplete(_))));
}

#[test]
fn record_test_record_too_small() {
    let input = b"\x00\x00";
    let res = parse_xlog_record_header(input);
    assert!(matches!(res, Err(XLogError::Incomplete(22))));
}

#[test]
fn xlog_record_test_parse_standby() {
    let res = parse_xlog_record(STANDBY);
    assert!(res.is_ok(), "{:x?}", res);

    let (i, record) = res.unwrap();
    assert_eq!(record.header.xl_tot_len, 50);
    assert_eq!(record.header.xl_xid, 0);

    assert_eq!(record.blocks.len(), 1);
    let block = &record.blocks[0];
    assert_eq!(block.blk_id, 0xff);
    assert_eq!(block.flags, 0);
    assert_eq!(block.data_len, 0x18);
    assert_eq!(block.data.as_ref().unwrap().len(), 0x18);

    assert!(i.is_empty(), "{:x?}", i);
}

#[test]
fn record_test_parse_standby() {
    let res = parse_xlog_record(STANDBY);
    assert!(res.is_ok(), "{:x?}", res);

    let (i, record) = res.unwrap();
    assert_eq!(record.header.xl_tot_len, 50);
    assert_eq!(record.header.xl_xid, 0);
    assert_eq!(record.header.xl_rmid, RmgrId::Standby);
    assert_eq!(record.header.xl_prev, 0x03004a00);
    assert_eq!(record.header.rmgr_info, 0x10);
    assert_eq!(record.operation, Operation::Standby);

    assert_eq!(record.blocks.len(), 1);
    let block = &record.blocks[0];
    assert_eq!(block.blk_id, 0xff);
    assert_eq!(block.flags, 0);
    assert_eq!(block.data_len, 0x18);
    assert_eq!(block.data.as_ref().unwrap().len(), 0x18);
    assert_eq!(block.data.as_ref().unwrap()[9], 0x48);

    assert!(i.is_empty(), "{:x?}", i);
}

#[test]
fn xlog_record_test_parse_fpw() {
    let res = parse_xlog_record(FPW);
    assert!(res.is_ok(), "{:x?}", res);

    let (i, record) = res.unwrap();
    assert_eq!(record.header.xl_tot_len, 232);
    assert_eq!(record.header.xl_xid, 748);

    assert_eq!(record.blocks.len(), 2);
    let block = &record.blocks[0];
    assert_eq!(block.blk_id, 0);
    assert_eq!(block.flags, 0x30);
    assert_eq!(block.data_len, 0x0a);
    assert_eq!(block.data.as_ref().unwrap().len(), 0x0a);
    assert!(i.is_empty(), "{:x?}", i);
    assert!(block.image.is_some());

    let image = block.image.as_ref().unwrap();
    assert_eq!(image.bimg_len, 168);

    let block = &record.blocks[1];
    assert_eq!(block.blk_id, 0xff);
    assert_eq!(block.flags, 0x0);
    assert_eq!(block.data_len, 0x03);
}

#[test]
fn record_test_parse_fpw() {
    let res = parse_xlog_record(FPW);
    assert!(res.is_ok(), "{:x?}", res);

    let (i, record) = res.unwrap();
    assert_eq!(record.header.xl_tot_len, 232);
    assert_eq!(record.header.xl_xid, 748);
    let Operation::Heap(HeapOperation::Insert(insert)) = record.operation else {
        panic!("Unexpected operation")
    };
    // the main data is `04 00 08`
    assert_eq!(insert.offnum, 4);

    assert_eq!(record.blocks.len(), 2);
    let block = &record.blocks[0];
    assert_eq!(block.blk_id, 0);
    assert_eq!(block.flags, 0x30);
    assert_eq!(block.data_len, 0x0a);
    assert_eq!(block.data.as_ref().unwrap().len(), 0x0a);
    assert!(i.is_empty(), "{:x?}", i);
    assert!(block.image.is_some());

    let image = block.image.as_ref().unwrap();
    assert_eq!(image.bimg_len, 168);

    let block = &record.blocks[1];
    assert_eq!(block.blk_id, 0xff);
    assert_eq!(block.flags, 0x0);
    assert_eq!(block.data_len, 0x03);
}

#[test]
fn heap_insert_with_full_page_image() {
    let (i, record) = parse_xlog_record(FPW).unwrap();
    assert!(i.is_empty());
    assert_eq!(record.header.xl_tot_len, 232);
    assert_eq!(record.header.xl_xid, 748);
    assert_eq!(record.header.xl_rmid, RmgrId::Heap);
    // The main data is `04 00 08`: line pointer 4, flags 0x08.
    let Operation::Heap(HeapOperation::Insert(insert)) = record.operation else {
        panic!("Unexpected operation")
    };
    assert_eq!(insert.offnum, 4);
    assert!(insert.contains_new_tuple);
    assert!(!insert.all_visible_cleared);

    assert_eq!(record.blocks.len(), 2);
    let image = record.blocks[0].image.as_ref().unwrap();
    assert_eq!(image.bimg_len, 168);
    assert_eq!(image.hole_offset, 40);
    assert_eq!(image.hole_length, 8192 - 168);
    assert!(image.apply_image);
    assert_eq!(image.bkp_image.len(), 168);
    assert_eq!(image.bkp_image[0], 0x00);
    assert_eq!(image.bkp_image[4], 0x68);
    let page_id = record.blocks[0].page_id.unwrap();
    assert_eq!(page_id.locator.spc_node, 1663);
    assert_eq!(page_id.locator.db_node, 12976);
    assert_eq!(page_id.locator.rel_node, 16406);
    assert_eq!(page_id.blockno, 0);
    assert_eq!(record.blocks[0].data.as_ref().unwrap()[..], [0x04, 0x00, 0x01, 0x08, 0x18, 0x01, 0x01, 0x00, 0x00, 0x00]);
    assert_eq!(record.blocks[1].blk_id, 0xff);
    assert_eq!(record.blocks[1].data.as_ref().unwrap()[..], [0x04, 0x00, 0x08]);
}

#[test]
fn empty_record_ends_page() {
    let input = [0u8; 32];
    assert!(matches!(parse_xlog_record(&input), Err(XLogError::EmptyRecord)));
    let (rest, records) = parse_xlog_records(&input).unwrap();
    assert!(records.is_empty());
    assert_eq!(rest.len(), 32);
}

#[test]
fn unknown_resource_manager() {
    let mut input = STANDBY.to_vec();
    input[17] = 0x30;
    assert!(matches!(parse_xlog_record(&input), Err(XLogError::InvalidResourceManager(0x30))));
}

#[test]
fn nonzero_header_padding() {
    let mut input = STANDBY.to_vec();
    input[18] = 1;
    assert!(matches!(parse_xlog_record(&input), Err(XLogError::IncorrectPaddingValue(_))));
}

#[test]
fn nonzero_record_padding() {
    let mut input = STANDBY.to_vec();
    input[52] = 7;
    match parse_xlog_record(&input) {
        Err(XLogError::IncorrectPaddingValue(p)) => assert_eq!(p, vec![0, 0, 7, 0, 0, 0]),
        e => panic!("Unexpected output: {:?}", e),
    }
}

#[test]
fn record_shorter_than_header() {
    let mut input = STANDBY.to_vec();
    input[0] = 10;
    assert!(matches!(parse_xlog_record(&input), Err(XLogError::InvalidRecord(_))));
}

#[test]
fn truncated_record_is_incomplete() {
    assert!(matches!(parse_xlog_record_header(&STANDBY[..40]), Err(XLogError::Incomplete(10))));
}

#[test]
fn records_span_whole_input() {
    let mut input = STANDBY.to_vec();
    input.extend_from_slice(FPW);
    let (rest, records) = parse_xlog_records(&input).unwrap();
    assert!(rest.is_empty());
    assert_eq!(records.len(), 2);
    let total: usize = records
        .iter()
        .map(|r| {
            let t = r.header.xl_tot_len as usize;
            t + (8 - t % 8) % 8
        })
        .sum();
    assert_eq!(total, input.len());
}
