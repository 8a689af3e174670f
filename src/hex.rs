//! Hexadecimal numerals, as they appear in segment names and log positions.
use vstd::prelude::*;

verus! {

/// The value of the hexadecimal digit `c` (either case), if it is one.
pub open spec fn hex_digit(c: u8) -> Option<int> {
    if 0x30 <= c <= 0x39 {
        Some(c - 0x30)
    } else if 0x41 <= c <= 0x46 {
        Some(c - 0x41 + 10)
    } else if 0x61 <= c <= 0x66 {
        Some(c - 0x61 + 10)
    } else {
        None
    }
}

/// Every byte of `s` is a hexadecimal digit.
pub open spec fn all_hex(s: Seq<u8>) -> bool {
    forall|k: int| 0 <= k < s.len() ==> #[trigger] hex_digit(s[k]) is Some
}

/// The value of the hexadecimal numeral `s`, most significant digit first.
pub open spec fn hex_value(s: Seq<u8>) -> int
    decreases s.len(),
{
    if s.len() == 0 {
        0
    } else {
        hex_value(s.drop_last()) * 16 + hex_digit(s.last()).unwrap_or(0)
    }
}

/// What `parse_hex_u32` yields for the numeral `s`.
pub open spec fn hex_u32(s: Seq<u8>) -> Option<u32> {
    if s.len() > 0 && all_hex(s) && hex_value(s) <= u32::MAX {
        Some(hex_value(s) as u32)
    } else {
        None
    }
}

fn digit_value(c: u8) -> (r: Option<u8>)
    ensures
        match hex_digit(c) {
            Some(v) => r == Some(v as u8),
            None => r is None,
        },
{
    if 0x30 <= c && c <= 0x39 {
        Some(c - 0x30)
    } else if 0x41 <= c && c <= 0x46 {
        Some(c - 0x41 + 10)
    } else if 0x61 <= c && c <= 0x66 {
        Some(c - 0x61 + 10)
    } else {
        None
    }
}

proof fn lemma_hex_value_nonneg(s: Seq<u8>)
    ensures
        hex_value(s) >= 0,
    decreases s.len(),
{
    if s.len() > 0 {
        lemma_hex_value_nonneg(s.drop_last());
    }
}

/// Parses `b[start..end]` as an unsigned 32-bit hexadecimal numeral.
pub fn parse_hex_u32(b: &[u8], start: usize, end: usize) -> (r: Option<u32>)
    requires
        start <= end <= b@.len(),
    ensures
        r == hex_u32(b@.subrange(start as int, end as int)),
{
    let ghost s = b@.subrange(start as int, end as int);
    let mut acc: u64 = 0;
    let mut k = start;
    while k < end
        invariant
            start <= k <= end <= b@.len(),
            s == b@.subrange(start as int, end as int),
            all_hex(s.subrange(0, k - start)),
            acc as int == if hex_value(s.subrange(0, k - start)) <= u32::MAX {
                hex_value(s.subrange(0, k - start))
            } else {
                u32::MAX + 1
            },
        decreases end - k,
    {
        let d = match digit_value(b[k]) {
            Some(d) => d,
            None => {
                assert(hex_digit(s[k - start]) is None);
                return None;
            },
        };
        proof {
            let p = s.subrange(0, k + 1 - start);
            assert(p.drop_last() =~= s.subrange(0, k - start));
            assert(p.last() == b@[k as int]);
            lemma_hex_value_nonneg(p.drop_last());
            assert(all_hex(p));
        }
        acc = acc * 16 + d as u64;
        if acc > 0xFFFF_FFFF {
            acc = 0x1_0000_0000;
        }
        k = k + 1;
    }
    assert(s.subrange(0, end - start) =~= s);
    if start == end || acc > 0xFFFF_FFFF {
        None
    } else {
        Some(acc as u32)
    }
}

} // verus!
