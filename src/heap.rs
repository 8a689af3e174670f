//! Structural decoders for the main data of Heap records.
use vstd::prelude::*;
use vstd::slice::slice_subrange;

use crate::error::XLogError;
use crate::framing::{le_u16_at, le_u32_at, read_u16, read_u32, read_u8};

verus! {

pub type TransactionId = u32;
pub type OffsetNumber = u16;

#[derive(Clone, Copy, Debug, PartialEq, Eq, Structural)]
pub struct Infobits {
    pub xmax_is_multi: bool,
    pub xmax_lock_only: bool,
    pub xmax_excl_lock: bool,
    pub xmax_keyshare_lock: bool,
    pub keys_updated: bool,
}

#[derive(Clone, Copy, Debug, PartialEq, Eq, Structural)]
pub struct Delete {
    pub xmax: TransactionId,
    pub offnum: OffsetNumber,
    pub infobits: Infobits,
    pub all_visible_cleared: bool,
    pub contains_old_tuple: bool,
    pub contains_old_key: bool,
    pub is_super: bool,
    pub is_partition_move: bool,
}

#[derive(Clone, Copy, Debug, PartialEq, Eq, Structural)]
pub struct Insert {
    pub offnum: OffsetNumber,
    pub all_visible_cleared: bool,
    pub last_in_multi: bool,
    pub is_speculative: bool,
    pub contains_new_tuple: bool,
    pub on_toast_relation: bool,
    pub all_frozen_set: bool,
}

#[derive(Clone, Copy, Debug, PartialEq, Eq, Structural)]
pub struct Update {
    pub old_xmax: TransactionId,
    pub old_offnum: OffsetNumber,
    pub old_infobits: Infobits,
    pub old_all_visible_cleared: bool,
    pub new_all_visible_cleared: bool,
    pub contains_old_tuple: bool,
    pub contains_new_tuple: bool,
    pub prefix_from_old: bool,
    pub suffix_from_old: bool,
    pub new_xmax: TransactionId,
    pub new_offnum: OffsetNumber,
}

#[derive(Clone, Copy, Debug, PartialEq, Eq, Structural)]
pub struct Prune {
    pub latest_remove_xid: TransactionId,
    pub nredirected: u16,
    pub ndead: u16,
}

#[derive(Clone, Copy, Debug, PartialEq, Eq, Structural)]
pub enum HeapOperation {
    Delete(Delete),
    Insert(Insert),
    Update(Update),
    Prune(Prune),
    /// an operation whose body is not decoded
    Placeholder,
}

pub open spec fn bit(v: u8, mask: u8) -> bool {
    v & mask != 0
}

pub open spec fn infobits_of(v: u8) -> Infobits {
    Infobits {
        xmax_is_multi: bit(v, 0x01),
        xmax_lock_only: bit(v, 0x02),
        xmax_excl_lock: bit(v, 0x04),
        xmax_keyshare_lock: bit(v, 0x08),
        keys_updated: bit(v, 0x10),
    }
}

/// The insert described by the 3 bytes at the front of `b`.
pub open spec fn insert_of(b: Seq<u8>) -> Insert {
    let flags = b[2];
    Insert {
        offnum: le_u16_at(b, 0),
        all_visible_cleared: bit(flags, 0x01),
        last_in_multi: bit(flags, 0x02),
        is_speculative: bit(flags, 0x04),
        contains_new_tuple: bit(flags, 0x08),
        on_toast_relation: bit(flags, 0x10),
        all_frozen_set: bit(flags, 0x20),
    }
}

/// The delete described by the 8 bytes at the front of `b`.
pub open spec fn delete_of(b: Seq<u8>) -> Delete {
    let flags = b[7];
    Delete {
        xmax: le_u32_at(b, 0),
        offnum: le_u16_at(b, 4),
        infobits: infobits_of(b[6]),
        all_visible_cleared: bit(flags, 0x01),
        contains_old_tuple: bit(flags, 0x02),
        contains_old_key: bit(flags, 0x04),
        is_super: bit(flags, 0x08),
        is_partition_move: bit(flags, 0x10),
    }
}

/// The update described by the 14 bytes at the front of `b`.
pub open spec fn update_of(b: Seq<u8>) -> Update {
    let flags = b[7];
    Update {
        old_xmax: le_u32_at(b, 0),
        old_offnum: le_u16_at(b, 4),
        old_infobits: infobits_of(b[6]),
        old_all_visible_cleared: bit(flags, 0x01),
        new_all_visible_cleared: bit(flags, 0x02),
        contains_old_tuple: bit(flags, 0x04),
        contains_new_tuple: bit(flags, 0x08),
        prefix_from_old: bit(flags, 0x10),
        suffix_from_old: bit(flags, 0x20),
        new_xmax: le_u32_at(b, 8),
        new_offnum: le_u16_at(b, 12),
    }
}

/// The prune described by the 8 bytes at the front of `b`.
pub open spec fn prune_of(b: Seq<u8>) -> Prune {
    Prune { latest_remove_xid: le_u32_at(b, 0), nredirected: le_u16_at(b, 4), ndead: le_u16_at(b, 6) }
}

/// Decodes one byte of infobits.
pub fn parse_infobits(i: &[u8]) -> (r: Result<(&[u8], Infobits), XLogError>)
    ensures
        i@.len() < 1 ==> r matches Err(XLogError::Incomplete(1)),
        i@.len() >= 1 ==> (r matches Ok((rest, v)) && v == infobits_of(i@[0]) && rest@ == i@.subrange(
            1,
            i@.len() as int,
        )),
{
    if i.len() < 1 {
        return Err(XLogError::Incomplete(1));
    }
    let v = read_u8(i, 0);
    let bits = Infobits {
        xmax_is_multi: v & 0x01 != 0,
        xmax_lock_only: v & 0x02 != 0,
        xmax_excl_lock: v & 0x04 != 0,
        xmax_keyshare_lock: v & 0x08 != 0,
        keys_updated: v & 0x10 != 0,
    };
    Ok((slice_subrange(i, 1, i.len()), bits))
}

pub fn parse_heap_insert(i: &[u8]) -> (r: Result<(&[u8], HeapOperation), XLogError>)
    ensures
        i@.len() < 3 ==> (r matches Err(XLogError::Incomplete(n)) && n == 3 - i@.len()),
        i@.len() >= 3 ==> (r matches Ok((rest, op)) && op == HeapOperation::Insert(insert_of(i@))
            && rest@ == i@.subrange(3, i@.len() as int)),
{
    if i.len() < 3 {
        return Err(XLogError::Incomplete(3 - i.len()));
    }
    let flags = read_u8(i, 2);
    let insert = Insert {
        offnum: read_u16(i, 0),
        all_visible_cleared: flags & 0x01 != 0,
        last_in_multi: flags & 0x02 != 0,
        is_speculative: flags & 0x04 != 0,
        contains_new_tuple: flags & 0x08 != 0,
        on_toast_relation: flags & 0x10 != 0,
        all_frozen_set: flags & 0x20 != 0,
    };
    Ok((slice_subrange(i, 3, i.len()), HeapOperation::Insert(insert)))
}

pub fn parse_heap_delete(i: &[u8]) -> (r: Result<(&[u8], HeapOperation), XLogError>)
    ensures
        i@.len() < 8 ==> (r matches Err(XLogError::Incomplete(n)) && n == 8 - i@.len()),
        i@.len() >= 8 ==> (r matches Ok((rest, op)) && op == HeapOperation::Delete(delete_of(i@))
            && rest@ == i@.subrange(8, i@.len() as int)),
{
    if i.len() < 8 {
        return Err(XLogError::Incomplete(8 - i.len()));
    }
    let infobits = match parse_infobits(slice_subrange(i, 6, 7)) {
        Ok((_, v)) => v,
        Err(e) => return Err(e),
    };
    let flags = read_u8(i, 7);
    let delete = Delete {
        xmax: read_u32(i, 0),
        offnum: read_u16(i, 4),
        infobits,
        all_visible_cleared: flags & 0x01 != 0,
        contains_old_tuple: flags & 0x02 != 0,
        contains_old_key: flags & 0x04 != 0,
        is_super: flags & 0x08 != 0,
        is_partition_move: flags & 0x10 != 0,
    };
    Ok((slice_subrange(i, 8, i.len()), HeapOperation::Delete(delete)))
}

pub fn parse_heap_update(i: &[u8]) -> (r: Result<(&[u8], HeapOperation), XLogError>)
    ensures
        i@.len() < 14 ==> (r matches Err(XLogError::Incomplete(n)) && n == 14 - i@.len()),
        i@.len() >= 14 ==> (r matches Ok((rest, op)) && op == HeapOperation::Update(update_of(i@))
            && rest@ == i@.subrange(14, i@.len() as int)),
{
    if i.len() < 14 {
        return Err(XLogError::Incomplete(14 - i.len()));
    }
    let old_infobits = match parse_infobits(slice_subrange(i, 6, 7)) {
        Ok((_, v)) => v,
        Err(e) => return Err(e),
    };
    let flags = read_u8(i, 7);
    let update = Update {
        old_xmax: read_u32(i, 0),
        old_offnum: read_u16(i, 4),
        old_infobits,
        old_all_visible_cleared: flags & 0x01 != 0,
        new_all_visible_cleared: flags & 0x02 != 0,
        contains_old_tuple: flags & 0x04 != 0,
        contains_new_tuple: flags & 0x08 != 0,
        prefix_from_old: flags & 0x10 != 0,
        suffix_from_old: flags & 0x20 != 0,
        new_xmax: read_u32(i, 8),
        new_offnum: read_u16(i, 12),
    };
    Ok((slice_subrange(i, 14, i.len()), HeapOperation::Update(update)))
}

pub fn parse_heap_prune(i: &[u8]) -> (r: Result<(&[u8], HeapOperation), XLogError>)
    ensures
        i@.len() < 8 ==> (r matches Err(XLogError::Incomplete(n)) && n == 8 - i@.len()),
        i@.len() >= 8 ==> (r matches Ok((rest, op)) && op == HeapOperation::Prune(prune_of(i@))
            && rest@ == i@.subrange(8, i@.len() as int)),
{
    if i.len() < 8 {
        return Err(XLogError::Incomplete(8 - i.len()));
    }
    let prune = Prune {
        latest_remove_xid: read_u32(i, 0),
        nredirected: read_u16(i, 4),
        ndead: read_u16(i, 6),
    };
    Ok((slice_subrange(i, 8, i.len()), HeapOperation::Prune(prune)))
}

/// The operation sub-kind of a Heap record: bits 4 to 6 of its `rmgr_info`.
pub open spec fn heap_op_code(rmgr_info: u8) -> u8 {
    ((rmgr_info & 0x70) >> 4) as u8
}

/// Decodes the main data of a Heap record according to its operation sub-kind.
/// Insert, delete and update are decoded; the other kinds carry no body.
pub fn parse_heap_operation(rmgr_info: u8, i: &[u8]) -> (r: Result<(&[u8], HeapOperation), XLogError>)
    ensures
        heap_op_code(rmgr_info) == 0 && i@.len() >= 3 ==> (r matches Ok((_, op)) && op
            == HeapOperation::Insert(insert_of(i@))),
        heap_op_code(rmgr_info) == 1 && i@.len() >= 8 ==> (r matches Ok((_, op)) && op
            == HeapOperation::Delete(delete_of(i@))),
        heap_op_code(rmgr_info) == 2 && i@.len() >= 14 ==> (r matches Ok((_, op)) && op
            == HeapOperation::Update(update_of(i@))),
        heap_op_code(rmgr_info) == 0 && i@.len() < 3 ==> r matches Err(XLogError::Incomplete(_)),
        heap_op_code(rmgr_info) == 1 && i@.len() < 8 ==> r matches Err(XLogError::Incomplete(_)),
        heap_op_code(rmgr_info) == 2 && i@.len() < 14 ==> r matches Err(XLogError::Incomplete(_)),
        heap_op_code(rmgr_info) >= 3 ==> (r matches Ok((rest, op)) && op
            == HeapOperation::Placeholder && rest@ == i@),
{
    let op = (rmgr_info & 0x70) >> 4;
    if op == 0 {
        parse_heap_insert(i)
    } else if op == 1 {
        parse_heap_delete(i)
    } else if op == 2 {
        parse_heap_update(i)
    } else {
        Ok((i, HeapOperation::Placeholder))
    }
}

} // verus!
