use wal_analyzer::error::XLogError;
use wal_analyzer::framing::{consume_padding, is_zero_range, read_u16, read_u32, read_u64, read_u8};
use wal_analyzer::hex::parse_hex_u32;
use wal_analyzer::xlog_block::parse_blocks;

#[test]
fn little_endian_readers() {
    let b = [0x0d, 0xd1, 0x07, 0x00, 0x01, 0x00, 0x00, 0x00, 0xff];
    assert_eq!(read_u8(&b, 8), 0xff);
    assert_eq!(read_u16(&b, 0), 0xd10d);
    assert_eq!(read_u32(&b, 0), 0x0007d10d);
    assert_eq!(read_u64(&b, 1), 0xff00000001_0007d1);
}

#[test]
fn padding_rules() {
    assert_eq!(consume_padding(&[0, 0, 0, 5], 3).unwrap(), &[5]);
    assert_eq!(consume_padding(&[1, 2], 0).unwrap(), &[1, 2]);
    assert!(matches!(consume_padding(&[0; 16], 9), Err(XLogError::IncorrectPaddingLength(9))));
    assert!(matches!(consume_padding(&[0, 0], 4), Err(XLogError::Incomplete(2))));
    match consume_padding(&[0, 3, 0], 3) {
        Err(XLogError::IncorrectPaddingValue(p)) => assert_eq!(p, vec![0, 3, 0]),
        e => panic!("Unexpected output: {:?}", e),
    }
    assert!(is_zero_range(&[1, 0, 0, 1], 1, 3));
    assert!(!is_zero_range(&[1, 0, 0, 1], 0, 3));
}

#[test]
fn hex_numerals() {
    let b = b"00FFab12G";
    assert_eq!(parse_hex_u32(b, 0, 8), Some(0x00ffab12));
    assert_eq!(parse_hex_u32(b, 0, 0), None);
    assert_eq!(parse_hex_u32(b, 0, 9), None);
    assert_eq!(parse_hex_u32(b"100000000", 0, 9), None);
    assert_eq!(parse_hex_u32(b"0FFFFFFFF", 0, 9), Some(u32::MAX));
}

#[test]
fn payload_longer_than_body() {
    // main data announces 9 bytes, 2 remain
    assert!(matches!(parse_blocks(b"\xff\x09\x01\x02"), Err(XLogError::InvalidDataLen(2, 9))));
}
