use vstd::prelude::*;

verus! {

/// Framing errors emitted while decoding pages, records and block references.
#[derive(Debug, Clone)]
pub enum XLogError {
    /// End of input reached cleanly
    Eof,
    /// Page magic mismatch or invalid info bits
    InvalidPageHeader,
    /// Long/short header mismatch with the page's position
    IncorrectPageType,
    /// A record whose total length is zero: the page payload ends here
    EmptyRecord,
    /// This many more bytes are required
    Incomplete(usize),
    InvalidResourceManager(u8),
    InvalidForkNumber(u8),
    /// Previous data block id (if any) and the offending id
    InvalidBlockId(Option<u8>, u8),
    OutOfOrderBlock,
    MissingBlockDataLen,
    UnexpectedBlockDataLen(u16),
    /// Hole offset, hole length and image length
    InvalidBlockImageHole(u16, u16, u16),
    IncorrectId(u8),
    /// Bytes consumed and bytes expected
    InvalidDataLen(usize, usize),
    LeftoverBytes(Vec<u8>),
    IncorrectPaddingValue(Vec<u8>),
    IncorrectPaddingLength(usize),
    InvalidRecord(String),
}

} // verus!
