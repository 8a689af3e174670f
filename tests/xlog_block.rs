use wal_analyzer::error::XLogError;
use wal_analyzer::xlog_block::{parse_blocks, ForkNumber};

#[test]
fn test_parse_heap_block() {
    //  block 0: id 0, flags 0x60, data_len 10, locator 1663/12976/16406, block 0
    //  main data: id 0xff, length 3
    //  data of block 0, then the main data
    let input = b"\x00\x60\x0a\x00\x7f\x06\x00\x00\xb0\x32\x00\x00\x16\x40\x00\x00\x00\x00\x00\x00\xff\x03\x04\x00\x01\x08\x18\x01\x01\x00\x00\x00\x01\x00\x08";
    let res = parse_blocks(input);
    assert!(res.is_ok(), "{:?}", res);

    let (i, blocks) = res.unwrap();
    assert_eq!(blocks.len(), 2);
    let block = &blocks[0];

    assert_eq!(block.blk_id, 0);
    assert_eq!(block.page_id.unwrap().fork, ForkNumber::Main);
    assert_eq!(block.flags, 0x60);
    assert_eq!(block.data_len, 0x0a);

    let main_block = &blocks[1];
    assert_eq!(main_block.blk_id, 0xff);
    assert_eq!(main_block.data_len, 3);

    assert!(i.is_empty(), "{:?}", i);
}

const TWO_BLOCKS: &[u8] = b"\x00\x40\x00\x00\x7f\x06\x00\x00\xb0\x32\x00\x00\x17\x40\x00\x00\x01\x00\x00\x00\x02\xe0\x1c\x00\x00\x00\x00\x00\xff\x08\x04\x00\x00\x00\x01\x00\x00\x00\x00\x00\x00\x00\x01\x00\x00\x00\x00\x00\x00\x00\x00\x00\x00\x00\x01\xa9\xb4\x3e\x01\x00\x00\x00\x00\x00\x00\x00";

#[test]
fn same_relation_is_inherited() {
    let (_, blocks) = parse_blocks(TWO_BLOCKS).unwrap();
    assert_eq!(blocks.len(), 3);
    let first = blocks[0].page_id.unwrap();
    let second = blocks[1].page_id.unwrap();
    assert_eq!(blocks[1].blk_id, 2);
    assert_eq!(second.locator, first.locator);
    assert_eq!(first.blockno, 1);
    assert_eq!(second.blockno, 0);
    assert!(!blocks[0].has_data);
    assert_eq!(blocks[1].data.as_ref().unwrap().len(), 0x1c);
    assert_eq!(blocks[2].data.as_ref().unwrap()[..], [1, 0, 0, 0, 0, 0, 0, 0]);
}

#[test]
fn block_ids_must_increase() {
    let mut input = TWO_BLOCKS.to_vec();
    input[20] = 0;
    assert!(matches!(parse_blocks(&input), Err(XLogError::InvalidBlockId(Some(0), 0))));
}

#[test]
fn same_relation_without_previous_block() {
    let input = b"\x00\x80\x00\x00\x00\x00\x00\x00";
    assert!(matches!(parse_blocks(input), Err(XLogError::OutOfOrderBlock)));
}

#[test]
fn block_errors() {
    // fork number 5
    assert!(matches!(parse_blocks(b"\x00\x05\x00\x00\x00\x00"), Err(XLogError::InvalidForkNumber(5))));
    // has-data flag without data
    assert!(matches!(parse_blocks(b"\x00\x20\x00\x00\x00\x00"), Err(XLogError::MissingBlockDataLen)));
    // data without has-data flag
    assert!(matches!(parse_blocks(b"\x00\x00\x03\x00\x00\x00"), Err(XLogError::UnexpectedBlockDataLen(3))));
    // an id between 32 and 0xfb
    assert!(matches!(parse_blocks(b"\x40\x00"), Err(XLogError::IncorrectId(0x40))));
    // a hole with offset zero
    let input = b"\x00\x10\x00\x00\x10\x00\x00\x00\x01\x00\x00\x00\x00\x00\x00\x00\x00\x00\x00\x00\x00\x00\x00\x00";
    assert!(matches!(parse_blocks(input), Err(XLogError::InvalidBlockImageHole(0, _, 16))));
}

#[test]
fn leftover_bytes_are_refused() {
    let input = b"\xff\x01\x07\x09";
    match parse_blocks(input) {
        Err(XLogError::LeftoverBytes(b)) => assert_eq!(b, vec![9]),
        e => panic!("Unexpected output: {:?}", e),
    }
}

#[test]
fn empty_block_section() {
    let (rest, blocks) = parse_blocks(b"").unwrap();
    assert!(rest.is_empty());
    assert!(blocks.is_empty());
}

#[test]
fn toplevel_xid_and_origin_are_skipped() {
    let input = b"\xfc\x01\x02\x03\x04\xfd\x05\x06\xff\x02\xaa\xbb";
    let (_, blocks) = parse_blocks(input).unwrap();
    assert_eq!(blocks.len(), 1);
    assert_eq!(blocks[0].data.as_ref().unwrap()[..], [0xaa, 0xbb]);
}
