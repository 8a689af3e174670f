//! Log positions as stored in page headers: two 32-bit halves, written `HI/LO`.
use vstd::prelude::*;
use vstd::string::StringSliceAdditionalSpecFns;

use crate::hex::{hex_u32, parse_hex_u32};

verus! {

#[derive(Clone, Copy, Debug, PartialEq, Eq, Structural, Hash)]
pub struct PageXLogRecPtr {
    /// high half
    pub xlogid: u32,
    /// low half
    pub xrecoff: u32,
}

/// Why a textual log position was refused.
#[derive(Clone, Debug, PartialEq, Eq)]
pub enum InvalidLSN {
    /// no `/` separates the halves; the text
    Format(String),
    /// a half is not a 32-bit hexadecimal number; the text and a description
    HexValue(String, String),
}


impl PageXLogRecPtr {
    pub fn new(halves: (u32, u32)) -> (r: PageXLogRecPtr)
        ensures
            r.xlogid == halves.0,
            r.xrecoff == halves.1,
    {
        PageXLogRecPtr { xlogid: halves.0, xrecoff: halves.1 }
    }

    pub open spec fn spec_lsn(&self) -> u64 {
        (self.xlogid as int * 0x1_0000_0000 + self.xrecoff as int) as u64
    }

    /// The position as one 64-bit number.
    pub fn lsn(&self) -> (r: u64)
        ensures
            r == self.spec_lsn(),
    {
        self.xlogid as u64 * 0x1_0000_0000 + self.xrecoff as u64
    }

    /// Parses `HI/LO`, two hexadecimal numbers of at most 32 bits each.
    pub fn parse(text: &str) -> (r: Result<PageXLogRecPtr, InvalidLSN>)
        ensures
            ({
                let b = text.spec_bytes();
                match r {
                    Ok(p) => exists|k: int|
                        0 <= k < b.len() && b[k] == 0x2f && (forall|j: int|
                            0 <= j < k ==> b[j] != 0x2f) && hex_u32(b.subrange(0, k)) == Some(
                            p.xlogid,
                        ) && hex_u32(b.subrange(k + 1, b.len() as int)) == Some(p.xrecoff),
                    Err(InvalidLSN::Format(s)) => s@ == text@ && forall|k: int|
                        0 <= k < b.len() ==> b[k] != 0x2f,
                    Err(InvalidLSN::HexValue(s, _)) => s@ == text@ && exists|k: int|
                        0 <= k < b.len() && b[k] == 0x2f && (forall|j: int|
                            0 <= j < k ==> b[j] != 0x2f) && (hex_u32(b.subrange(0, k)) is None
                            || hex_u32(b.subrange(k + 1, b.len() as int)) is None),
                }
            }),
    {
        let b = text.as_bytes();
        let n = b.len();
        let mut k: usize = 0;
        while k < n && b[k] != 0x2f
            invariant
                k <= n == b@.len(),
                forall|j: int| 0 <= j < k ==> b@[j] != 0x2f,
            decreases n - k,
        {
            k = k + 1;
        }
        if k == n {
            return Err(InvalidLSN::Format(text.to_owned()));
        }
        let hi = match parse_hex_u32(b, 0, k) {
            Some(v) => v,
            None => {
                return Err(
                    InvalidLSN::HexValue(
                        text.to_owned(),
                        "high half is not a 32-bit hexadecimal number".to_owned(),
                    ),
                )
            },
        };
        let lo = match parse_hex_u32(b, k + 1, n) {
            Some(v) => v,
            None => {
                return Err(
                    InvalidLSN::HexValue(
                        text.to_owned(),
                        "low half is not a 32-bit hexadecimal number".to_owned(),
                    ),
                )
            },
        };
        Ok(PageXLogRecPtr { xlogid: hi, xrecoff: lo })
    }
}

} // verus!
