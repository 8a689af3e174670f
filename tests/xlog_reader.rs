use wal_analyzer::xlog::{xlog_seg_to_recptr, XLogRecPtr};
use wal_analyzer::xlog_reader::{parse_filename, FilenameError, XLogFilePos};

#[test]
fn xlog_reader_test_parse_filename() {
    let input = "000000010000000000000002";
    let res = parse_filename(input);
    match res {
        Ok(XLogFilePos { tli, log, seg }) => {
            assert_eq!(tli, 1);
            assert_eq!(log, 0);
            assert_eq!(seg, 2);
        }
        e => {
            panic!("Unexpected output: {:?}", e)
        }
    }
}

#[test]
fn xlog_test_parse_filename() {
    let input = "000000010000000000000002";
    let res = wal_analyzer::xlog::parse_filename(input);
    match res {
        Ok(XLogFilePos { tli, log, seg }) => {
            assert_eq!(tli, 1);
            assert_eq!(log, 0);
            assert_eq!(seg, 2);
        }
        e => {
            panic!("Unexpected output: {:?}", e)
        }
    }
}

#[test]
fn test_xlog_file_pos_to_recptr() {
    let walsegsize = 16 * 1024 * 1024;
    let tli = 1;
    let log = 2;
    let seg = 0;
    let res = XLogFilePos { tli, log, seg }.get_xlog_rec_ptr(walsegsize);
    assert_eq!(res, 33554432);
}

#[test]
fn test_xlog_seg_to_recptr() {
    let walsegsize = 16 * 1024 * 1024; // 16MB
    let XLogRecPtr(res) = xlog_seg_to_recptr(2, walsegsize, 0);
    assert_eq!(res, 33554432);
}

#[test]
fn filename_hex_fields() {
    let pos = parse_filename("0000000A000000FF0000b0c1").unwrap();
    assert_eq!(pos, XLogFilePos { tli: 10, log: 255, seg: 0xb0c1 });
    assert_eq!(pos.get_xlog_rec_ptr(0x1000), 255 * 0x1000 + 0xb0c1);
    assert_eq!(parse_filename("00000001"), Err(FilenameError::TooShort(8)));
    assert_eq!(parse_filename("0000000100000000000000G2"), Err(FilenameError::InvalidHex(16)));
    assert_eq!(parse_filename("00000001+0000000000000002"), Err(FilenameError::InvalidHex(8)));
}
